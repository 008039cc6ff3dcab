use shellsense::commands::{CommandIndex, IndexedCommand, LoadError};
use shellsense::model::{CandidateKind, ShellCommand};

fn command(name: &str) -> IndexedCommand {
    IndexedCommand {
        name: name.into(),
        kind: CandidateKind::Command,
        description: String::new(),
        definition: String::new(),
        executable_path: Some(format!("C:\\bin\\{name}")),
    }
}

fn shell(name: &str, kind: &str, definition: &str) -> ShellCommand {
    ShellCommand { name: name.into(), kind: kind.into(), definition: definition.into() }
}

#[test]
fn cache_is_used_only_when_current_and_complete() {
    let commands = vec![command("git.exe"), command("Git.exe"), command("cargo.exe")];
    assert!(matches!(CommandIndex::load(1, true, true, &commands), Err(LoadError::Version(1))));
    assert!(matches!(CommandIndex::load(2, false, true, &commands), Err(LoadError::Incomplete)));
    assert!(matches!(CommandIndex::load(2, true, false, &commands), Err(LoadError::Stale)));
    assert_eq!(LoadError::Version(7).message(), "unsupported command cache version 7");
    let index = CommandIndex::load(2, true, true, &commands).unwrap();
    assert_eq!(index.len(), 2);
    assert!(index.is_complete());
    assert_eq!(index.lookup("GIT.EXE").unwrap().name, "git.exe");
}

#[test]
fn session_commands_shadow_and_replacing_restores_path_commands() {
    let mut index = CommandIndex::from_commands(&vec![command("ls"), command("git")], true);
    index.merge_shell_commands(vec![shell("ls", "Alias", "Get-ChildItem"), shell("gst", "Function", "")]);
    assert_eq!(index.len(), 3);
    assert_eq!(index.lookup("ls").unwrap().kind, CandidateKind::Alias);
    index.replace_shell_commands(Vec::new());
    assert_eq!(index.len(), 2);
    assert_eq!(index.lookup("ls").unwrap().kind, CandidateKind::Command);
    assert!(index.lookup("gst").is_none());
}

#[test]
fn empty_complete_index_is_valid() {
    let index = CommandIndex::new();
    assert!(index.is_empty());
    assert!(index.is_complete());
}
