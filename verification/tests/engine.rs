use shellsense::commands::{CommandIndex, IndexedCommand};
use shellsense::engine::{
    answer_candidates, command_candidates, completion_request, directory_path, fallback_description,
    filesystem_candidates, typed_directory, DirectoryPath, SpecAnswer, SpecCandidate, MAX_RESULTS,
};
use shellsense::lexer::TokenContext;
use shellsense::model::{Candidate, CandidateKind};

fn plain() -> TokenContext {
    TokenContext { value_before: String::new(), quote_char: None, quoted: false, closed: false }
}

fn command(name: &str, kind: CandidateKind, definition: &str, path: Option<&str>) -> IndexedCommand {
    IndexedCommand {
        name: name.into(),
        kind,
        description: String::new(),
        definition: definition.into(),
        executable_path: path.map(|p| p.to_owned()),
    }
}

fn entries(list: &[(&str, bool)]) -> Vec<(String, bool)> {
    list.iter().map(|(name, dir)| (name.to_string(), *dir)).collect()
}

fn labels(candidates: &[Candidate]) -> Vec<&str> {
    candidates.iter().map(|c| c.label.as_str()).collect()
}

fn spec(name: &str, key: &str, description: &str) -> SpecCandidate {
    SpecCandidate { name: name.into(), key: key.into(), description: description.into(), kind: CandidateKind::Option }
}

#[test]
fn files_are_filtered_ignoring_case_and_ordered_by_name() {
    let listing = entries(&[("srv", false), ("README.md", false), ("Src2", false), ("src", true)]);
    let found = filesystem_candidates("sr", &plain(), 10, &listing, '/');
    assert_eq!(labels(&found), vec!["src", "Src2", "srv"]);
    assert_eq!(found[0].insert_text, "src/");
    assert_eq!(found[0].description, "Directory");
    assert_eq!(found[0].kind, CandidateKind::Directory);
    assert_eq!(found[1].insert_text, "Src2");
    assert_eq!(found[1].description, "File");
    assert_eq!(found[1].kind, CandidateKind::File);
    let two = filesystem_candidates("SR", &plain(), 2, &listing, '/');
    assert_eq!(labels(&two), vec!["src", "Src2"]);
    assert!(filesystem_candidates("sr", &plain(), 0, &listing, '/').is_empty());
}

#[test]
fn files_keep_the_typed_directory_and_separator() {
    let listing = entries(&[("Sub", true), ("my file.txt", false)]);
    let found = filesystem_candidates("a/b\\S", &plain(), 10, &listing, '/');
    assert_eq!(labels(&found), vec!["Sub"]);
    assert_eq!(found[0].insert_text, "a/b\\Sub\\");
    let spaced = filesystem_candidates("docs/my", &plain(), 10, &listing, '\\');
    assert_eq!(spaced[0].insert_text, "'docs/my file.txt'");
    let native = filesystem_candidates("S", &plain(), 10, &listing, '\\');
    assert_eq!(native[0].insert_text, "Sub\\");
    assert_eq!(typed_directory("a/b\\c"), "a/b\\");
    assert_eq!(typed_directory("name"), "");
}

#[test]
fn commands_are_deduplicated_and_shortest_first() {
    let list = vec![
        command("git-gui", CandidateKind::Command, "", Some("C:\\bin\\git-gui.exe")),
        command("git", CandidateKind::Command, "", None),
        command("Get-Item", CandidateKind::Cmdlet, "", None),
        command("gi", CandidateKind::Alias, "Get-Item", None),
        command("GIT", CandidateKind::Function, "", None),
    ];
    let catalog = vec![("git".to_string(), "Version control".to_string())];
    let found = command_candidates(&list, "GI", &plain(), 10, &catalog);
    assert_eq!(labels(&found), vec!["gi", "git", "git-gui"]);
    assert_eq!(found[0].description, "Alias");
    assert_eq!(found[1].description, "Version control");
    assert_eq!(found[2].description, "Executable: C:\\bin\\git-gui.exe");
    assert_eq!(found[1].kind, CandidateKind::Command);
    let one = command_candidates(&list, "g", &plain(), 1, &catalog);
    assert_eq!(labels(&one), vec!["gi"]);
}

#[test]
fn fallback_descriptions_state_only_facts() {
    let cases = [
        (CandidateKind::Command, Some("/usr/bin/rg"), "Executable: /usr/bin/rg"),
        (CandidateKind::Command, None, "Command"),
        (CandidateKind::Alias, None, "Alias"),
        (CandidateKind::Function, None, "Function"),
        (CandidateKind::Cmdlet, None, "Cmdlet"),
        (CandidateKind::Option, None, "Command"),
    ];
    for (kind, path, expected) in cases {
        assert_eq!(fallback_description(&command("x", kind, "", path)), expected);
    }
}

#[test]
fn spec_answers_keep_key_case_and_apply_overrides() {
    let candidates = vec![
        spec("-C", "git -C", "Run in directory"),
        spec("-c", "git -c", "Set configuration"),
        spec("--help", "git --help", "Show help"),
        spec("-C", "git -C", "duplicate"),
        spec("commit", "git commit", "Record changes"),
    ];
    let overrides = vec![("git -c".to_string(), "Config value".to_string())];
    let found = answer_candidates(&candidates, "-", &plain(), 10, &overrides);
    assert_eq!(labels(&found), vec!["-C", "-c", "--help"]);
    assert_eq!(found[0].description, "Run in directory");
    assert_eq!(found[1].description, "Config value");
    let limited = answer_candidates(&candidates, "-", &plain(), 2, &overrides);
    assert_eq!(labels(&limited), vec!["-C", "-c"]);
}

#[test]
fn requests_split_command_arguments_and_token() {
    let q = completion_request("git commit -m", 13);
    assert_eq!((q.replace_start, q.replace_end), (11, 13));
    assert!(!q.command_position);
    assert_eq!(q.command, "git");
    assert_eq!(q.arguments, vec!["commit".to_string()]);
    assert_eq!(q.context.value_before, "-m");
    let piped = completion_request("ls | gi", 7);
    assert!(piped.command_position);
    assert_eq!(piped.context.value_before, "gi");
    let middle = completion_request("giXYZ", 2);
    assert_eq!((middle.replace_start, middle.replace_end), (0, 5));
    assert_eq!(middle.context.value_before, "gi");
    let past_end = completion_request("cd 'my d", 100);
    assert_eq!((past_end.replace_start, past_end.replace_end), (3, 8));
    assert_eq!(past_end.context.value_before, "my d");
    assert!(past_end.context.quoted);
    assert!(!past_end.context.closed);
}

#[test]
fn completion_chooses_commands_specs_or_files() {
    let list = vec![
        command("git", CandidateKind::Command, "", None),
        command("gitk", CandidateKind::Command, "", None),
        command("cd", CandidateKind::Alias, "Set-Location", None),
    ];
    let index = CommandIndex::from_indexed(&list, true);
    let none: Vec<(String, String)> = Vec::new();
    let listing = entries(&[("src", true), ("target", true)]);

    let commands = index.complete("gi", 2, 10, &none, None, &listing, '/');
    assert_eq!((commands.replace_start, commands.replace_end), (0, 2));
    assert_eq!(labels(&commands.candidates), vec!["git", "gitk"]);
    assert!(!commands.incomplete);

    let files = index.complete("cd sr", 5, 10, &none, None, &listing, '/');
    assert_eq!((files.replace_start, files.replace_end), (3, 5));
    assert_eq!(labels(&files.candidates), vec!["src"]);
    assert_eq!(files.candidates[0].insert_text, "src/");

    let answer = SpecAnswer { candidates: vec![spec("--version", "git --version", "Print version")], path_values: true, options_ended: false };
    let options = index.complete("git --v", 7, 10, &none, Some(&answer), &listing, '/');
    assert_eq!(labels(&options.candidates), vec!["--version"]);
    let no_option = index.complete("git --x", 7, 10, &none, Some(&answer), &listing, '/');
    assert!(no_option.candidates.is_empty());
    let paths = index.complete("git s", 5, 10, &none, Some(&answer), &listing, '/');
    assert_eq!(labels(&paths.candidates), vec!["src"]);
    let closed = SpecAnswer { candidates: Vec::new(), path_values: false, options_ended: false };
    let nothing = index.complete("git s", 5, 10, &none, Some(&closed), &listing, '/');
    assert!(nothing.candidates.is_empty());

    let overrides = vec![("git --version".to_string(), "Show the version".to_string())];
    let described = index.complete_with_descriptions("git --v", 7, 10, &overrides, &none, Some(&answer), &listing, '/');
    assert_eq!(described.candidates[0].description, "Show the version");

    assert!(index.complete("gi", 2, 0, &none, None, &listing, '/').candidates.is_empty());
    assert_eq!(MAX_RESULTS, 1000);
    let pending = CommandIndex::from_indexed(&list, false);
    assert!(pending.complete("gi", 2, 10, &none, None, &listing, '/').incomplete);
}

#[test]
fn aliases_are_followed_until_a_command_or_a_cycle() {
    let list = vec![
        command("gs", CandidateKind::Alias, "git status", None),
        command("git", CandidateKind::Command, "", None),
        command("a", CandidateKind::Alias, "b", None),
        command("b", CandidateKind::Alias, "a", None),
        command("empty", CandidateKind::Alias, "   ", None),
    ];
    let index = CommandIndex::from_indexed(&list, true);
    assert_eq!(index.resolve_alias("gs"), "git");
    assert_eq!(index.resolve_alias("  'gs' "), "git");
    assert_eq!(index.resolve_alias("cargo"), "cargo");
    assert_eq!(index.resolve_alias("a"), "a");
    assert_eq!(index.resolve_alias("empty"), "empty");
}

#[test]
fn directory_parts_keep_roots_and_home() {
    assert!(matches!(directory_path("", '/'), DirectoryPath::Current));
    assert!(matches!(directory_path("src/", '/'), DirectoryPath::Text(t) if t == "src"));
    assert!(matches!(directory_path("/", '\\'), DirectoryPath::Text(t) if t == "/"));
    assert!(matches!(directory_path("C:\\", '\\'), DirectoryPath::Text(t) if t == "C:\\"));
    assert!(matches!(directory_path("a\\\\", '/'), DirectoryPath::Text(t) if t == "a"));
    assert!(matches!(directory_path("~/", '/'), DirectoryPath::Home { suffix, text } if suffix.is_empty() && text == "~"));
    assert!(matches!(directory_path("~//docs/", '/'), DirectoryPath::Home { suffix, text } if suffix == "docs" && text == "~//docs"));
    assert!(matches!(directory_path("~x/", '/'), DirectoryPath::Text(t) if t == "~x"));
}
