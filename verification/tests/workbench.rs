use shellsense::forms::{CommandTemplate, TemplateParameter};
use shellsense::model::{Candidate, Completion};
use shellsense::session::{Query, Session, UiKeyError, UiKeyRequest, UiOutcome};
use shellsense::workbench::{Workbench, WorkbenchAction, WorkbenchError};

fn candidate(id: &str, insert: &str) -> Candidate {
    Candidate { label: id.into(), insert_text: insert.into(), id: id.into(), ..Default::default() }
}

fn branch_template() -> CommandTemplate {
    CommandTemplate { command: "git switch -c <BRANCH>".into(), ..Default::default() }
}

fn mode_template() -> CommandTemplate {
    CommandTemplate {
        tokens: vec!["cargo".into(), "test".into(), "{mode}".into()],
        parameters: vec![TemplateParameter {
            name: "mode".into(),
            kind: "enum".into(),
            values: vec!["fast".into(), "slow".into(), "full".into()],
            ..Default::default()
        }],
        ..Default::default()
    }
}

fn press(bench: &mut Workbench, key: &str, unit: u16, selected: &mut usize) -> Result<WorkbenchAction, WorkbenchError> {
    bench.key(key, 0, unit, None, selected, true)
}

#[test]
fn typing_assembles_surrogate_pairs_and_skips_controls() {
    let mut bench = Workbench::new(Vec::new());
    let mut selected = 3;
    for unit in "g".encode_utf16() {
        press(&mut bench, "KeyG", unit, &mut selected).unwrap();
    }
    assert_eq!(selected, 0);
    for unit in "😀".encode_utf16() {
        press(&mut bench, "Emoji", unit, &mut selected).unwrap();
    }
    assert_eq!(bench.input, "g😀");
    press(&mut bench, "Tab", 0x09, &mut selected).unwrap();
    press(&mut bench, "Lone", 0xdc00, &mut selected).unwrap();
    assert_eq!(bench.input, "g😀");
    let mut kept = 2;
    bench.key("KeyX", 4, 'x' as u16, None, &mut kept, true).unwrap();
    assert_eq!((bench.input.as_str(), kept), ("g😀", 2));
    press(&mut bench, "Backspace", 0, &mut selected).unwrap();
    assert_eq!(bench.input, "g");
    press(&mut bench, "Backspace", 0, &mut selected).unwrap();
    press(&mut bench, "Backspace", 0, &mut selected).unwrap();
    assert_eq!(bench.input, "");
}

#[test]
fn enter_opens_a_template_form_and_finishes_it() {
    let mut bench = Workbench::new(vec![("hub:template:branch".to_string(), branch_template())]);
    let chosen = candidate("hub:template:branch", "git switch -c <BRANCH>");
    let completion = Completion { candidates: vec![chosen.clone()], ..Default::default() };
    let mut selected = 0;
    let opened = bench.key("Enter", 0, 0, Some((&chosen, &completion)), &mut selected, true).unwrap();
    assert!(matches!(opened, WorkbenchAction::Refresh));
    assert!(bench.form.is_some());
    assert_eq!(bench.generation, 1);
    for unit in "dev".encode_utf16() {
        press(&mut bench, "Key", unit, &mut selected).unwrap();
    }
    let done = press(&mut bench, "Enter", 0, &mut selected).unwrap();
    assert!(matches!(done, WorkbenchAction::Edit(text) if text == "git switch -c dev"));
}

#[test]
fn enter_inserts_plain_candidates_and_guards_project_packs() {
    let mut bench = Workbench::new(Vec::new());
    let plain = candidate("hub:favorite:1", "git status");
    let completion = Completion { candidates: vec![plain.clone()], ..Default::default() };
    let mut selected = 0;
    let edit = bench.key("Enter", 0, 0, Some((&plain, &completion)), &mut selected, false).unwrap();
    assert!(matches!(edit, WorkbenchAction::Edit(text) if text == "git status"));
    let project = candidate("hub:project:build", "cargo build");
    let refused = bench.key("Enter", 0, 0, Some((&project, &completion)), &mut selected, false);
    assert!(matches!(refused, Err(WorkbenchError::NotApproved)));
    assert!(bench.project);
    let allowed = bench.key("Enter", 0, 0, Some((&project, &completion)), &mut selected, true).unwrap();
    assert!(matches!(allowed, WorkbenchAction::Edit(text) if text == "cargo build"));
}

#[test]
fn arrows_cycle_enum_values_or_move_the_selection() {
    let mut bench = Workbench::new(vec![("t".to_string(), mode_template())]);
    let chosen = candidate("t", "cargo test {mode}");
    let completion = Completion { candidates: vec![chosen.clone(), candidate("u", "u"), candidate("v", "v")], ..Default::default() };
    let mut selected = 0;
    bench.key("UpArrow", 0, 0, Some((&chosen, &completion)), &mut selected, true).unwrap();
    assert_eq!(selected, 2);
    bench.key("DownArrow", 0, 0, Some((&chosen, &completion)), &mut selected, true).unwrap();
    assert_eq!(selected, 0);
    bench.key("Enter", 0, 0, Some((&chosen, &completion)), &mut selected, true).unwrap();
    press(&mut bench, "DownArrow", 0, &mut selected).unwrap();
    assert_eq!(bench.input, "fast");
    press(&mut bench, "DownArrow", 0, &mut selected).unwrap();
    assert_eq!(bench.input, "slow");
    press(&mut bench, "UpArrow", 0, &mut selected).unwrap();
    press(&mut bench, "UpArrow", 0, &mut selected).unwrap();
    assert_eq!(bench.input, "full");
    bench.input = "other".into();
    press(&mut bench, "UpArrow", 0, &mut selected).unwrap();
    assert_eq!(bench.input, "fast");
    press(&mut bench, "Backspace", 0, &mut selected).unwrap();
    press(&mut bench, "Backspace", 0, &mut selected).unwrap();
    for unit in "xx".encode_utf16() {
        press(&mut bench, "Key", unit, &mut selected).unwrap();
    }
    let refused = press(&mut bench, "Enter", 0, &mut selected).unwrap();
    assert!(matches!(refused, WorkbenchAction::Refresh));
    assert_eq!(bench.error.as_deref(), Some("参数 mode 不在可选值中"));
}

fn key_request(revision: u64, key: &str, unit: u64) -> UiKeyRequest {
    UiKeyRequest {
        revision: Some(revision),
        line: Some("git".into()),
        cursor: Some(3),
        key: key.into(),
        character_unit: unit,
        ..Default::default()
    }
}

#[test]
fn session_keys_are_checked_and_edits_replace_the_buffer() {
    let mut session = Session::new();
    session
        .query(&Query { revision: Some(1), line: Some("git".into()), cursor: Some(3), width: Some(80), rows: Some(20) })
        .unwrap();
    assert!(matches!(session.ui_key(&key_request(2, "KeyA", 'a' as u64), true), Err(UiKeyError::NoWorkbench)));
    assert!(matches!(session.ui_key(&key_request(2, "KeyA", 'a' as u64), true), Err(UiKeyError::Stale)));
    assert!(matches!(session.ui_key(&UiKeyRequest::default(), true), Err(UiKeyError::MissingRevision)));
    session.open_workbench(vec![("t".to_string(), branch_template())]);
    let mut stale = key_request(3, "KeyA", 'a' as u64);
    stale.cursor = Some(1);
    assert!(matches!(session.ui_key(&stale, true), Err(UiKeyError::Stale)));
    assert!(matches!(session.ui_key(&key_request(3, "KeyA", 0x1_0000 + 'a' as u64), true), Ok(UiOutcome::Refresh)));
    assert!(matches!(session.ui_key(&key_request(4, "F1", 0), true), Ok(UiOutcome::Refresh)));
    let edited = session.ui_key(&key_request(5, "Enter", 0), true);
    assert!(matches!(edited, Ok(UiOutcome::Refresh)));
    assert!(matches!(session.ui_key(&key_request(6, "Escape", 0), true), Ok(UiOutcome::Clear)));
    assert!(matches!(session.ui_key(&key_request(7, "KeyA", 'a' as u64), true), Err(UiKeyError::NoWorkbench)));
}

#[test]
fn a_chosen_command_replaces_the_whole_buffer() {
    let mut session = Session::new();
    session
        .query(&Query { revision: Some(1), line: Some("gi😀".into()), cursor: Some(4), width: Some(80), rows: Some(20) })
        .unwrap();
    session.open_workbench(Vec::new());
    let frame = session.render(Completion {
        candidates: vec![candidate("hub:favorite:1", "git status")],
        ..Default::default()
    });
    let request = UiKeyRequest {
        revision: Some(2),
        line: Some("gi😀".into()),
        cursor: Some(4),
        frame_id: Some(frame.frame_id),
        candidate_id: Some(frame.candidate_id.clone()),
        key: "Enter".into(),
        ..Default::default()
    };
    let edit = session.ui_key(&request, true);
    assert!(matches!(edit, Ok(UiOutcome::Edit { text, length }) if text == "git status" && length == 4));
    let again = UiKeyRequest { revision: Some(3), ..request };
    assert!(matches!(session.ui_key(&again, true), Err(UiKeyError::NoWorkbench)));
}

#[test]
fn field_values_are_requested_once_per_generation() {
    let mut session = Session::new();
    session
        .query(&Query { revision: Some(1), line: Some("g".into()), cursor: Some(1), width: Some(80), rows: Some(20) })
        .unwrap();
    assert!(session.values_request().is_none());
    session.open_workbench(vec![("t".to_string(), mode_template())]);
    assert!(session.values_request().is_none());
    let frame = session.render(Completion { candidates: vec![candidate("t", "cargo test {mode}")], ..Default::default() });
    let request = UiKeyRequest {
        revision: Some(2),
        line: Some("g".into()),
        cursor: Some(1),
        frame_id: Some(frame.frame_id),
        candidate_id: Some("t".into()),
        key: "Enter".into(),
        ..Default::default()
    };
    assert!(matches!(session.ui_key(&request, true), Ok(UiOutcome::Refresh)));
    let (field, generation) = session.values_request().unwrap();
    assert_eq!((field.name.as_str(), generation), ("mode", 1));
    assert!(session.values_request().is_none());
}
