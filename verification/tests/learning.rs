use shellsense::help::{parse_help, HelpPage};
use shellsense::learning::{
    finish_page, fingerprint, help_arguments, install_roots, invoked_root, launch_arguments, record_current,
    shim_launches, shim_package, trusted_entry, valid_help_context, InstallBase, PARSER_VERSION,
};

fn strings(v: &[&str]) -> Vec<String> {
    v.iter().map(|s| s.to_string()).collect()
}

#[test]
fn invoked_roots_drop_directories_case_and_launcher_endings() {
    assert_eq!(invoked_root("C:\\Tools\\Git.EXE"), "git");
    assert_eq!(invoked_root("/usr/bin/foo.ps1.cmd"), "foo");
    assert_eq!(invoked_root("rustup.exe.exe"), "rustup");
    assert_eq!(invoked_root("a/b\\Codex"), "codex");
    assert_eq!(invoked_root("dir/"), "");
    assert_eq!(invoked_root("中文.exe"), "中文");
}

#[test]
fn known_tools_have_their_install_roots() {
    assert_eq!(install_roots("cargo"), vec![(InstallBase::Home, ".cargo/bin".to_string())]);
    assert_eq!(install_roots("rustc"), install_roots("cargo"));
    assert_eq!(
        install_roots("uv"),
        vec![(InstallBase::Home, ".local/bin".to_string()), (InstallBase::LocalAppData, "Microsoft/WinGet/Packages".to_string())]
    );
    assert_eq!(install_roots("docker"), vec![(InstallBase::ProgramFiles, "Docker".to_string())]);
    assert!(install_roots("unknown").is_empty());
}

#[test]
fn trust_needs_a_known_tool_outside_the_project() {
    assert!(trusted_entry(true, false, false, false, false, false));
    assert!(!trusted_entry(false, false, false, false, true, false));
    assert!(!trusted_entry(true, true, false, false, true, false));
    assert!(!trusted_entry(true, false, true, false, false, true));
    assert!(trusted_entry(true, false, true, true, false, true));
    assert!(trusted_entry(true, false, false, false, true, true));
}

#[test]
fn npm_shims_must_name_their_package_script() {
    assert_eq!(shim_package("codex"), "@openai/codex");
    assert_eq!(shim_package("tsc"), "tsc");
    let wrapper = "@\"%~dp0\\node_modules\\typescript\\bin\\tsc\" %*";
    assert!(shim_launches(wrapper, "typescript", "bin/tsc"));
    assert!(!shim_launches(wrapper, "typescript", "bin/other"));
}

#[test]
fn help_requests_follow_the_adapter() {
    assert!(valid_help_context(&strings(&["build", "sub_cmd-2"])));
    assert!(!valid_help_context(&strings(&["a", "b", "c", "d", "e"])));
    assert!(!valid_help_context(&strings(&[""])));
    assert!(!valid_help_context(&strings(&["a;b"])));
    assert_eq!(help_arguments("scoop", "scoop", &strings(&["install"])), strings(&["help", "install"]));
    assert_eq!(help_arguments("aws", "aws", &strings(&["s3"])), strings(&["s3", "help"]));
    assert_eq!(help_arguments("windows-slash", "robocopy", &Vec::new()), strings(&["/?"]));
    assert_eq!(help_arguments("sectioned", "git", &strings(&["commit"])), strings(&["commit", "-h"]));
    assert_eq!(help_arguments("sectioned", "git", &Vec::new()), strings(&["--help"]));
    assert_eq!(help_arguments("choco", "choco", &Vec::new()), strings(&["-?"]));
    assert_eq!(
        launch_arguments(Some("/lib/cli.js"), "python3", &strings(&["--help"])),
        strings(&["/lib/cli.js", "-I", "-S", "--help"])
    );
    assert_eq!(launch_arguments(None, "rg", &strings(&["--help"])), strings(&["--help"]));
}

#[test]
fn records_are_current_only_for_unchanged_files() {
    let f = fingerprint("a", "b", "");
    assert_eq!(f, "8f7607641644d1089384ca606361048470aa0145d9b9b04bfd7b4ca4b0fcd457");
    assert!(record_current(PARSER_VERSION, &f, Some(("a".into(), "b".into())), ""));
    assert!(!record_current(PARSER_VERSION, &f, Some(("a".into(), "c".into())), ""));
    assert!(!record_current(PARSER_VERSION, &f, None, ""));
    assert!(!record_current(PARSER_VERSION + 1, &f, Some(("a".into(), "b".into())), ""));
}

#[test]
fn learned_pages_take_cargo_subcommands_from_the_listing() {
    let page = parse_help("Usage: cargo [OPTIONS]\n\nOptions:\n  -V, --version  Print version\n");
    let listing = shellsense::help::parse_cargo_list("Installed Commands:\n    build                Compile\n");
    let learned = finish_page(page, "sectioned", Some(listing)).unwrap();
    assert_eq!(learned.adapter, "cargo-list+help");
    assert_eq!(learned.commands, vec![("build".to_string(), "Compile".to_string())]);
    assert_eq!(learned.complete, learned.options_complete && learned.commands_complete);
    let plain = finish_page(parse_help("Usage: x\n\nOptions:\n  -q  Quiet\n"), "sectioned", None).unwrap();
    assert_eq!(plain.adapter, "sectioned");
    assert_eq!(finish_page(HelpPage::default(), "sectioned", None).unwrap_err(), "未识别到可用的命令或选项");
}
