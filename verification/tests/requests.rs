use shellsense::commands::{CommandIndex, IndexedCommand};
use shellsense::completion::{plan_request, SpecFacts};
use shellsense::forms::TemplateParameter;
use shellsense::host::{metadata_target, HostState};
use shellsense::hub::{
    candidates_with_history, inspect_commands, parameter_suggestions, search_with_history, search_with_history_guided,
    HubKind, SavedCommand,
};
use shellsense::learning::package_bin;
use shellsense::model::{CandidateKind, InputContext, ShellCommand};

fn context(command: &str, prefix: &str, command_position: bool) -> InputContext {
    InputContext {
        command: command.into(),
        arguments: Vec::new(),
        prefix: prefix.into(),
        replace_start: 0,
        replace_end: 0,
        command_position,
        suppressed: false,
    }
}

#[test]
fn the_source_request_carries_the_line_unchanged() {
    let facts = SpecFacts { provider: Some("cargo.packages".into()), path_values: false, options_ended: false, directories_only: false };
    let r = plan_request(
        7,
        "cargo add se".into(),
        12,
        "/work".into(),
        Some(context("cargo", "se", false)),
        InputContext::default(),
        vec![("HOME".to_string(), "/home/u".to_string())],
        true,
        true,
        Some(&facts),
    );
    assert_eq!((r.revision, r.line.as_str(), r.cursor, r.cwd.as_str(), r.fuzzy), (7, "cargo add se", 12, "/work", true));
    assert_eq!(r.context.command, "cargo");
    assert_eq!(r.environment, vec![("HOME".to_string(), "/home/u".to_string())]);
    assert!(r.project && !r.paths && !r.directories_only);
    assert_eq!(r.provider.as_deref(), Some("cargo.packages"));
}

#[test]
fn the_derived_context_stands_in_when_none_was_sent() {
    let r = plan_request(1, "cd sr".into(), 5, "/".into(), None, context("cd", "sr", false), Vec::new(), false, true, None);
    assert_eq!(r.context.prefix, "sr");
    assert!(r.paths && r.directories_only && !r.project && r.provider.is_none());
}

#[test]
fn metadata_is_asked_for_once_per_confirmed_name() {
    let commands = vec![ShellCommand { name: "Get-Thing".into(), kind: "function".into(), definition: String::new() }];
    let mut seen: Vec<String> = Vec::new();
    let first = metadata_target(true, true, "cargo build", &context("cargo", "build", false), &commands, &mut seen);
    assert_eq!(first.as_deref(), Some("cargo"));
    assert_eq!(seen, vec!["cargo".to_string()]);
    assert!(metadata_target(true, true, "cargo test", &context("cargo", "test", false), &commands, &mut seen).is_none());
    let typed = metadata_target(true, true, "get-thing", &context("", "get-thing", true), &commands, &mut seen);
    assert_eq!(typed.as_deref(), Some("get-thing"));
    assert!(metadata_target(true, true, "other", &context("", "other", true), &commands, &mut seen).is_none());
    assert!(metadata_target(false, true, "git x", &context("git", "x", false), &commands, &mut seen).is_none());
    assert!(metadata_target(true, true, "git x\ny", &context("git", "x", false), &commands, &mut seen).is_none());
    assert!(metadata_target(true, true, "a.b x", &context("a.b", "x", false), &commands, &mut seen).is_none());
    assert_eq!(seen.len(), 2);
    let mut host = HostState::new(true, false, 50);
    host.metadata_scheduled();
    assert!(host.metadata_pending);
}

fn favorite(name: &str, command: &str) -> SavedCommand {
    SavedCommand {
        name: name.into(),
        command: command.into(),
        description: "收藏".into(),
        tags: Vec::new(),
        kind: HubKind::Favorite,
        template: None,
    }
}

#[test]
fn the_workbench_searches_favorites_and_merged_history() {
    let session = vec!["cargo test --all".to_string()];
    let file = (vec!["cargo build".to_string(), "ls".to_string()], false);
    let (found, templates) = search_with_history(vec![favorite("发布", "cargo publish")], Vec::new(), Vec::new(), 10,
        &session, file.clone(), "cargo", 10, None);
    let commands: Vec<&str> = found.iter().map(|c| c.insert_text.as_str()).collect();
    assert_eq!(commands, ["cargo publish", "cargo test", "cargo test --all", "cargo build"]);
    assert!(templates.is_empty());
    let only = candidates_with_history(Vec::new(), Vec::new(), Vec::new(), 10, &session, file.clone(), "build", 10, None);
    assert_eq!(only.len(), 1);
    assert_eq!(only[0].kind, CandidateKind::Value);
    let guided = search_with_history_guided(Vec::new(), Vec::new(), Vec::new(), 1, &session, file, "cargo", 10, None, None);
    assert_eq!(guided.0.len(), 2);
    assert_eq!(inspect_commands(&vec![favorite("a", "b")], &Vec::new()), 1);
}

fn field(kind: &str, source: &str, values: &[&str]) -> TemplateParameter {
    TemplateParameter {
        name: "x".into(),
        label: "x".into(),
        kind: kind.into(),
        required: true,
        default: String::new(),
        values: values.iter().map(|v| v.to_string()).collect(),
        source: source.into(),
    }
}

#[test]
fn parameter_suggestions_follow_the_field_source() {
    let fetched: Vec<String> = (0..150).map(|i| format!("v{i}")).collect();
    assert_eq!(parameter_suggestions(&field("text", "", &["a", "b"]), "git", fetched.clone()), vec!["a", "b"]);
    assert!(parameter_suggestions(&field("text", "cargo.packages", &[]), "  ", fetched.clone()).is_empty());
    let listed = parameter_suggestions(&field("directory", "", &[]), "", fetched.clone());
    assert_eq!(listed.len(), 100);
    assert_eq!(listed[99], "v99");
    assert_eq!(parameter_suggestions(&field("text", "cargo.tests", &[]), "cargo test", vec!["t1".into()]), vec!["t1"]);
}

#[test]
fn only_the_packages_own_manifest_names_its_script() {
    assert_eq!(package_bin("@openai/codex", Some("@openai/codex"), Some("bin/codex.js"), None).as_deref(), Some("bin/codex.js"));
    assert_eq!(package_bin("tool", Some("tool"), None, Some("cli.js")).as_deref(), Some("cli.js"));
    assert!(package_bin("tool", Some("other"), Some("cli.js"), None).is_none());
    assert!(package_bin("tool", None, Some("cli.js"), None).is_none());
}

fn indexed(name: &str) -> IndexedCommand {
    IndexedCommand {
        name: name.into(),
        kind: CandidateKind::Command,
        description: String::new(),
        definition: String::new(),
        executable_path: None,
    }
}

#[test]
fn plain_completion_is_described_completion_without_overrides() {
    let index = CommandIndex::from_indexed(&vec![indexed("git"), indexed("gitk")], true);
    let none: Vec<(String, String)> = Vec::new();
    let listing: Vec<(String, bool)> = Vec::new();
    let plain = index.complete("gi", 2, 10, &none, None, &listing, '/');
    let described = index.complete_with_descriptions("gi", 2, 10, &Vec::new(), &none, None, &listing, '/');
    assert_eq!(format!("{plain:?}"), format!("{described:?}"));
}

#[test]
fn replaced_session_commands_agree_and_restore_the_path() {
    let base = vec![indexed("git"), indexed("ls")];
    let mut x = CommandIndex::from_indexed(&base, true);
    let mut y = CommandIndex::from_indexed(&base, true);
    let alias = |n: &str| ShellCommand { name: n.into(), kind: "alias".into(), definition: "Get-ChildItem".into() };
    x.merge_shell_commands(vec![alias("ls")]);
    y.merge_shell_commands(vec![alias("gx")]);
    x.replace_shell_commands(Vec::new());
    y.replace_shell_commands(Vec::new());
    assert_eq!(x.len(), y.len());
    assert_eq!(x.len(), 2);
    let none: Vec<(String, String)> = Vec::new();
    let listing: Vec<(String, bool)> = Vec::new();
    let a = x.complete("l", 1, 10, &none, None, &listing, '/');
    let b = y.complete("l", 1, 10, &none, None, &listing, '/');
    assert_eq!(format!("{a:?}"), format!("{b:?}"));
    assert_eq!(a.candidates[0].kind, CandidateKind::Command);
}
