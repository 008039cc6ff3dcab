use shellsense::model::ShellCommand;
use shellsense::snapshot::CommandSnapshot;

fn function(name: String) -> ShellCommand {
    ShellCommand { name, kind: "function".into(), definition: String::new() }
}

#[test]
fn batches_keep_previous_commands_until_complete_and_do_not_truncate() {
    let mut snapshot = CommandSnapshot::new();
    snapshot.receive(None, false, vec![function("obsolete".into())]);
    for batch in 0..6 {
        let commands: Vec<_> = (0..128).map(|n| function(format!("f{}", batch * 128 + n))).collect();
        let (merged, complete) = snapshot.receive(Some("first".into()), false, commands);
        assert!(!complete);
        assert!(merged.iter().any(|c| c.name == "obsolete"));
    }
    let (merged, complete) = snapshot.receive(Some("first".into()), true, Vec::new());
    assert!(complete);
    assert_eq!(merged.len(), 768);
    assert!(!merged.iter().any(|c| c.name == "obsolete"));
    let alias = ShellCommand { name: "new".into(), kind: "alias".into(), definition: "git".into() };
    let (merged, complete) = snapshot.receive(Some("next".into()), true, vec![alias]);
    assert!(complete);
    assert_eq!(merged.len(), 1);
    assert_eq!(merged[0].name, "new");
}

#[test]
fn a_new_snapshot_id_drops_the_batches_of_another() {
    let mut snapshot = CommandSnapshot::new();
    let (merged, _) = snapshot.receive(Some("a".into()), false, vec![function("x".into())]);
    assert_eq!(merged.len(), 1);
    let (merged, complete) = snapshot.receive(Some("b".into()), true, vec![function("y".into())]);
    assert!(complete);
    assert_eq!(merged.iter().map(|c| c.name.as_str()).collect::<Vec<_>>(), vec!["y"]);
}
