use shellsense::help::{parse_cargo_list, parse_help};
use shellsense::knowledge::{annotate, clean, native_description, synopsis};
use shellsense::model::Candidate;

#[test]
fn tooltip_survives_and_paths_do_not() {
    assert_eq!(
        synopsis("x", "\x1b[31m真实用途。更多内容\x1b[0m"),
        Some("真实用途。".into())
    );
    assert!(synopsis("x", "C:\\bin\\x.exe").is_none());
    assert!(synopsis("x", "x").is_none());
}

#[test]
fn clap_options_values_and_commands() {
    let p = parse_help(
        "Tool\nCommands:\n  exec  Run things\nOptions:\n  -s, --sandbox <MODE>\n      Select mode\n      [possible values: read-only, workspace-write]\n  --flag  Enable it\n",
    );
    assert!(p.complete);
    assert_eq!(p.command("exec").unwrap(), "Run things");
    assert_eq!(p.options[0].names, ["-s", "--sandbox"]);
    assert_eq!(p.options[0].values, ["read-only", "workspace-write"]);
    assert_eq!(p.options[0].value_name, "<MODE>");
}

#[test]
fn prose_is_not_a_command() {
    let p = parse_help("A paragraph mentioning --delete and --force\nRead the docs.");
    assert!(p.options.is_empty());
    assert!(!p.complete);
}

#[test]
fn clean_drops_escapes_and_controls() {
    assert_eq!(clean("a\x1b[1;31mb\x1b]0;title\x07c\x1b]2;t\x1b\\d\x1bXe\x00f\tg\n"), "abcdef\tg\n");
    assert_eq!(clean("\x1b"), "");
    assert_eq!(clean("x\x1b[12"), "x");
}

#[test]
fn synopsis_takes_the_first_sentence_of_the_first_line() {
    assert_eq!(synopsis("git", "\n  Show the log. Then more.\nsecond"), Some("Show the log.".into()));
    assert_eq!(synopsis("git", "GIT"), None);
    assert_eq!(synopsis("x", "/usr/bin/x"), None);
    assert_eq!(synopsis("x", "/a b"), Some("/a b".into()));
    assert_eq!(synopsis("x", "\\\\server\\share"), None);
    assert_eq!(synopsis("x", "   \n"), None);
    let long = "a".repeat(300);
    assert_eq!(synopsis("x", &long).unwrap().chars().count(), 240);
}

#[test]
fn annotation_marks_source_and_language() {
    let mut c = Candidate {
        description: "显示状态".into(),
        ..Default::default()
    };
    annotate(&mut c);
    assert_eq!(c.description_source, "builtin");
    assert_eq!(c.language, "zh");
    let mut d = Candidate {
        description: "status".into(),
        source: "spec".into(),
        ..Default::default()
    };
    annotate(&mut d);
    assert_eq!(d.description_source, "spec");
    assert_eq!(d.language, "en");
}

#[test]
fn native_tooltips_keep_the_detail() {
    let mut c = Candidate {
        label: "Get-Item".into(),
        description: "\x1b[1mGets the item. At a location.\x1b[0m".into(),
        ..Default::default()
    };
    native_description(&mut c);
    assert_eq!(c.description, "Gets the item.");
    assert_eq!(c.detail, "Gets the item. At a location.");
    assert_eq!(c.description_source, "PowerShell ToolTip");
    let mut p = Candidate {
        label: "x".into(),
        description: "C:\\x.exe".into(),
        ..Default::default()
    };
    native_description(&mut p);
    assert_eq!(p.description, "原生补全");
    assert_eq!(p.language, "zh");
}

#[test]
fn help_sections_aliases_and_uncertainty() {
    let p = parse_help(
        "Usage: tool [OPTIONS]\nCommands:\n  build (b)  Compile\n  run|r\n    nested  ignored\n  ...\nOptions:\n  -v, --verbose...  More output\n  --color[=WHEN]  Colors\n  -o FILE  Output\n",
    );
    assert_eq!(p.description, "build (b)  Compile");
    assert_eq!(p.command("build").unwrap(), "Compile");
    assert_eq!(p.command("run").unwrap(), "子命令");
    assert_eq!(p.command_aliases.len(), 2);
    assert!(!p.commands_complete);
    assert!(!p.options_complete);
    assert!(!p.complete);
    assert_eq!(p.options.len(), 2);
    assert!(p.options[0].repeatable);
    assert_eq!(p.options[1].names, ["-o"]);
    assert_eq!(p.options[1].value_name, "<FILE>");
    assert_eq!(p.adapter, "sectioned-help");
}

#[test]
fn options_without_description_are_named() {
    let p = parse_help("Options:\n  -q, --quiet <N>\n");
    assert_eq!(p.options[0].description, "-q, --quiet <N>");
    assert!(p.options_complete);
    assert!(p.complete);
}

#[test]
fn possible_values_lists_are_collected() {
    let p = parse_help("Options:\n  --mode <M>  Mode\n      Possible values:\n      - fast: quick\n      - slow: careful\n");
    assert_eq!(p.options[0].values, ["fast", "slow"]);
    assert_eq!(p.options[0].detail, "Mode\nPossible values:\n- fast: quick\n- slow: careful");
}

#[test]
fn cargo_list_reads_installed_commands() {
    let p = parse_cargo_list("Installed Commands:\n    build   Compile\n    b       alias: build\n    old     REMOVED: gone\n    fmt\n");
    assert!(p.complete);
    assert_eq!(p.command("build").unwrap(), "Compile");
    assert_eq!(p.command("fmt").unwrap(), "本机安装的 Cargo 子命令");
    assert!(p.command("old").is_none());
    assert_eq!(p.command_aliases, vec![("b".to_string(), "build".to_string())]);
    assert_eq!(p.adapter, "cargo-list");
    let bad = parse_cargo_list("Installed Commands:\n    b@d  x\n    ok\n");
    assert!(!bad.complete);
    assert!(!parse_cargo_list("build  Compile\n").complete);
}
