use shellsense::hub_mode::{HubMode, HubStep};
use shellsense::input::{Event, KeyCode, KeyModifiers};
use shellsense::model::Candidate;

const NONE: KeyModifiers = KeyModifiers { shift: false, alt: false, control: false };

fn key(code: KeyCode) -> Event {
    Event::Key { code, modifiers: NONE, release: false }
}

fn candidate(insert: &str) -> Candidate {
    Candidate { label: insert.into(), insert_text: insert.into(), ..Default::default() }
}

#[test]
fn typing_pasting_and_moving_the_selection() {
    let mut hub = HubMode::new();
    let shown = vec![candidate("a"), candidate("b"), candidate("c")];
    assert!(matches!(hub.event(&key(KeyCode::Char('g')), false, &shown, 2), HubStep::Refresh));
    assert!(matches!(hub.event(&Event::Paste("it\r\nst".into()), false, &shown, 2), HubStep::Refresh));
    assert_eq!(hub.query, "git  st");
    hub.event(&key(KeyCode::Backspace), false, &shown, 2);
    assert_eq!(hub.query, "git  s");
    let ctrl = Event::Key { code: KeyCode::Char('x'), modifiers: KeyModifiers { shift: false, alt: false, control: true }, release: false };
    assert!(matches!(hub.event(&ctrl, false, &shown, 2), HubStep::Ignore));
    assert_eq!(hub.query, "git  s");
    hub.event(&key(KeyCode::Up), false, &shown, 2);
    assert_eq!(hub.selected, 2);
    hub.event(&key(KeyCode::Down), false, &shown, 2);
    assert_eq!(hub.selected, 0);
    hub.event(&key(KeyCode::PageDown), false, &shown, 2);
    assert_eq!(hub.selected, 2);
    hub.event(&key(KeyCode::PageUp), false, &shown, 0);
    assert_eq!(hub.selected, 1);
    hub.event(&key(KeyCode::F(1)), false, &shown, 2);
    assert!(hub.details);
    assert!(matches!(hub.event(&key(KeyCode::Esc), false, &shown, 2), HubStep::Close));
    assert!(matches!(hub.event(&key(KeyCode::Char('h')), true, &shown, 2), HubStep::Close));
    assert!(matches!(hub.event(&Event::Resize(100, 40), false, &shown, 2), HubStep::Resize(100, 40)));
}

#[test]
fn placeholders_are_filled_in_before_the_command_is_accepted() {
    let mut hub = HubMode::new();
    let shown = vec![candidate("git switch -c <BRANCH> <BASE>"), candidate("git status")];
    assert!(matches!(hub.event(&key(KeyCode::Enter), false, &shown, 5), HubStep::Refresh));
    assert!(hub.form.is_some());
    assert!(matches!(hub.event(&key(KeyCode::Enter), false, &shown, 5), HubStep::Ignore));
    assert_eq!(hub.notification.as_deref(), Some("参数值不能为空"));
    for c in "dev".chars() {
        hub.event(&key(KeyCode::Char(c)), false, &shown, 5);
    }
    assert!(matches!(hub.event(&key(KeyCode::Enter), false, &shown, 5), HubStep::Refresh));
    assert_eq!(hub.query, "");
    for c in "main".chars() {
        hub.event(&key(KeyCode::Char(c)), false, &shown, 5);
    }
    match hub.event(&key(KeyCode::Enter), false, &shown, 5) {
        HubStep::Accept(Some(c)) => {
            assert_eq!(c.insert_text, "git switch -c dev main");
            assert_eq!(c.id, "hub:resolved-template");
        }
        other => panic!("{other:?}"),
    }
    let mut plain = HubMode::new();
    plain.selected = 1;
    assert!(matches!(plain.event(&key(KeyCode::Enter), false, &shown, 5), HubStep::Accept(None)));
}
