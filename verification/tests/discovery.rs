use shellsense::discovery::{
    command_lookup_key, executable_stem, is_remote_path, parse_pathext, sort_found, without_program_extension,
    Discovery, FoundCommand,
};

fn strings(v: &[&str]) -> Vec<String> {
    v.iter().map(|s| s.to_string()).collect()
}

fn found(name: &str, rank: usize, stem: &str, dir: &str) -> FoundCommand {
    FoundCommand {
        extension_rank: rank,
        lower_name: name.to_ascii_lowercase(),
        stem: stem.into(),
        executable_path: format!("{dir}/{name}"),
    }
}

#[test]
fn pathext_is_normalized_deduplicated_and_defaulted() {
    assert_eq!(parse_pathext(".EXE;bat; ;.exe"), strings(&[".exe", ".bat"]));
    assert_eq!(parse_pathext(""), strings(&[".com", ".exe", ".bat", ".cmd"]));
    assert_eq!(parse_pathext(" ; "), parse_pathext(""));
    assert_eq!(parse_pathext(" .Ps1 "), strings(&[".ps1"]));
}

#[test]
fn executable_stems_need_an_ending_and_a_name() {
    let exts = parse_pathext("");
    assert_eq!(executable_stem("Git.EXE", &exts), Some(("Git".to_string(), 1)));
    assert_eq!(executable_stem("run.cmd", &exts), Some(("run".to_string(), 3)));
    assert_eq!(executable_stem(".exe", &exts), None);
    assert_eq!(executable_stem("readme.txt", &exts), None);
}

#[test]
fn remote_paths_are_recognized() {
    assert!(is_remote_path("//server/share"));
    assert!(is_remote_path("\\\\server\\share"));
    assert!(is_remote_path("\\\\?\\UNC\\server\\share"));
    assert!(is_remote_path("\\\\.\\unc\\server"));
    assert!(!is_remote_path("\\\\?\\C:\\tools"));
    assert!(!is_remote_path("\\\\.\\pipe\\x"));
    assert!(!is_remote_path("C:\\tools"));
}

#[test]
fn lookup_keys_drop_program_endings() {
    assert_eq!(without_program_extension("git.exe"), Some("git".to_string()));
    assert_eq!(without_program_extension("git.EXE"), None);
    assert_eq!(without_program_extension("git"), None);
    assert_eq!(command_lookup_key("  Git.EXE "), "git");
    assert_eq!(command_lookup_key("make.bat"), "make");
}

#[test]
fn found_commands_are_ordered_by_rank_then_name() {
    let sorted = sort_found(vec![
        found("tool.cmd", 1, "tool", "/a"),
        found("tool.exe", 0, "tool", "/a"),
        found("Zed.exe", 0, "Zed", "/a"),
        found("alpha.exe", 0, "alpha", "/a"),
    ]);
    let names: Vec<&str> = sorted.iter().map(|f| f.lower_name.as_str()).collect();
    assert_eq!(names, ["alpha.exe", "tool.exe", "zed.exe", "tool.cmd"]);
}

#[test]
fn discovery_indexes_first_found_commands_and_tracks_access_errors() {
    let mut d = Discovery::new(strings(&["/a", "/b", "/c"]), ".EXE;.CMD");
    assert_eq!(d.next_directory().as_deref(), Some("/a"));
    d.open_directory();
    assert_eq!(d.next_directory(), None);
    for (name, rank, stem) in [("tool.cmd", 1, "tool"), ("tool.exe", 0, "tool"), ("Zed.exe", 0, "Zed"), ("alpha.exe", 0, "alpha")] {
        assert_eq!(d.stem(name), Some((stem.to_string(), rank)));
        d.found(found(name, rank, stem, "/a"));
    }
    assert_eq!(d.stem("notes.txt"), None);
    d.finish_directory();
    assert_eq!(d.next_directory().as_deref(), Some("/b"));
    d.skip_directory(false);
    assert_eq!(d.next_directory().as_deref(), Some("/c"));
    d.open_directory();
    d.found(found("tool.exe", 0, "tool", "/c"));
    d.finish_directory();
    assert!(!d.is_done());
    let partial = d.snapshot();
    assert!(!partial.is_complete());
    assert_eq!(d.next_directory(), None);
    assert!(d.is_done());
    assert!(d.is_complete());
    let index = d.snapshot();
    assert!(index.is_complete());
    assert_eq!(index.len(), 3);
    assert_eq!(index.lookup("tool").unwrap().executable_path.as_deref(), Some("/a/tool.exe"));
    let mut failed = Discovery::new(strings(&["/x"]), "");
    assert!(failed.next_directory().is_some());
    failed.skip_directory(true);
    assert_eq!(failed.next_directory(), None);
    assert!(failed.is_done());
    assert!(!failed.is_complete());
    assert!(!failed.snapshot().is_complete());
}
