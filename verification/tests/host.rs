use shellsense::config::KeyBindings;
use shellsense::host::{
    cursor_report, HostAction, HostMessage, HostRequest, HostState, Notice, PublicKeys, Screen,
};
use shellsense::input::{Event, KeyCode, KeyModifiers};

fn public() -> PublicKeys {
    PublicKeys { trigger: true, native: true, details: true, refresh: true, reload: true }
}

fn capabilities(ready: bool) -> HostMessage {
    HostMessage::Capabilities {
        ready,
        psreadline: true,
        buffer: true,
        apply: true,
        commands: true,
        enter: true,
        shift_enter: true,
        native: true,
        paste: true,
        metadata: true,
        history: false,
        public_keys: public(),
    }
}

fn screen() -> Screen {
    Screen { cols: 80, rows: 24, application_cursor: false, bracketed_paste: false, windows: false, last_detail_page: 2 }
}

fn none() -> KeyModifiers {
    KeyModifiers { shift: false, alt: false, control: false }
}

fn at_prompt() -> (HostState, Option<(String, String)>) {
    let mut host = HostState::new(true, false, 50);
    let mut env = None;
    let a = host.message(&mut env, capabilities(true));
    assert!(matches!(a.as_slice(), [HostAction::DropNotice]));
    let a = host.message(&mut env, HostMessage::PromptEnd { path: Some(("C:\\bin".into(), ".EXE".into())) });
    assert!(matches!(
        a.as_slice(),
        [
            HostAction::RefreshLearning,
            HostAction::InvalidateSources,
            HostAction::PromptReady,
            HostAction::Environment { refresh: false },
            HostAction::StartIndexing
        ]
    ));
    (host, env)
}

#[test]
fn first_ready_prompt_starts_indexing_and_takes_the_path() {
    let (host, env) = at_prompt();
    assert!(host.prompt && host.ready && host.indexed && host.commands_pending);
    assert_eq!(env, Some(("C:\\bin".to_string(), ".EXE".to_string())));
}

#[test]
fn unready_adapter_is_reported_once() {
    let mut host = HostState::new(true, false, 50);
    let mut env = None;
    host.message(&mut env, capabilities(false));
    let a = host.message(&mut env, HostMessage::PromptEnd { path: None });
    assert!(a.iter().any(|x| matches!(x, HostAction::Notice(Notice::AdapterUnavailable))));
    let a = host.message(&mut env, HostMessage::PromptEnd { path: None });
    assert!(!a.iter().any(|x| matches!(x, HostAction::Notice(_))));
    assert!(!host.indexed);
}

#[test]
fn one_request_at_a_time() {
    let (mut host, _) = at_prompt();
    host.dirty = true;
    host.commands_pending = false;
    assert_eq!(host.next_request(), Some(HostRequest::Buffer));
    assert_eq!(host.pending_query, Some(host.revision));
    host.dirty = true;
    assert_eq!(host.next_request(), None);
}

#[test]
fn commands_are_asked_for_after_a_prompt() {
    let (mut host, _) = at_prompt();
    host.commands_allowed = true;
    assert_eq!(host.next_request(), Some(HostRequest::CommandsNext));
    assert!(host.commands_inflight);
    assert_eq!(host.next_request(), None);
}

#[test]
fn buffer_reply_asks_for_completion_of_a_non_blank_line() {
    let (mut host, mut env) = at_prompt();
    host.dirty = true;
    host.commands_pending = false;
    host.next_request();
    let revision = host.revision;
    let a = host.message(&mut env, HostMessage::Buffer { line: Some("gi😀t".into()), cursor: Some(4) });
    assert!(matches!(
        a.as_slice(),
        [HostAction::SetBuffer(line, 6), HostAction::ScheduleMetadata, HostAction::SendQuery(r)]
            if line == "gi😀t" && *r == revision
    ));
    assert_eq!(host.pending_query, None);
}

#[test]
fn stale_or_surrogate_buffer_replies_are_dropped() {
    let (mut host, mut env) = at_prompt();
    host.pending_query = Some(host.revision);
    let a = host.message(&mut env, HostMessage::Buffer { line: Some("😀".into()), cursor: Some(1) });
    assert!(a.is_empty());
    host.pending_query = Some(host.revision.wrapping_sub(1));
    host.revision += 1;
    let a = host.message(&mut env, HostMessage::Buffer { line: Some("dir".into()), cursor: Some(3) });
    assert!(a.is_empty());
    assert_eq!(host.pending_query, None);
}

#[test]
fn enter_runs_the_shells_own_enter() {
    let (mut host, _) = at_prompt();
    let before = host.revision;
    let keys = KeyBindings::default();
    let a = host.key(Event::Key { code: KeyCode::Enter, modifiers: none(), release: false }, &keys, screen());
    assert!(matches!(
        a.as_slice(),
        [HostAction::ClearNotification, HostAction::ClearCompletion, HostAction::CancelWork, HostAction::Chord('e')]
    ));
    assert!(!host.prompt);
    assert_eq!(host.revision, before + 1);
}

#[test]
fn shift_enter_uses_its_own_chord() {
    let (mut host, _) = at_prompt();
    let keys = KeyBindings::default();
    let shift = KeyModifiers { shift: true, alt: false, control: false };
    let a = host.key(Event::Key { code: KeyCode::Enter, modifiers: shift, release: false }, &keys, screen());
    assert!(matches!(a.last(), Some(HostAction::Chord('l'))));
}

#[test]
fn supplementary_characters_go_through_the_paste_bridge() {
    let (mut host, _) = at_prompt();
    let keys = KeyBindings::default();
    let a = host.key(Event::Key { code: KeyCode::Char('😀'), modifiers: none(), release: false }, &keys, screen());
    assert!(matches!(a.as_slice(), [HostAction::StorePaste { sequence: 1, text }] if text == "😀"));
    let a = host.paste_stored(true);
    assert!(matches!(a.as_slice(), [HostAction::ClearCompletion, HostAction::Chord('p')]));
    assert!(host.dirty);
    let a = host.paste_stored(false);
    assert!(matches!(a.as_slice(), [HostAction::Notice(Notice::PasteTooLarge)]));
}

#[test]
fn paste_without_the_bridge_is_refused() {
    let mut host = HostState::new(true, false, 50);
    host.prompt = true;
    let keys = KeyBindings::default();
    let a = host.key(Event::Paste("x".into()), &keys, screen());
    assert!(matches!(a.as_slice(), [HostAction::Notice(Notice::PasteUnavailable)]));
}

#[test]
fn typed_text_is_written_and_marks_the_line_changed() {
    let (mut host, _) = at_prompt();
    let keys = KeyBindings::default();
    let a = host.key(Event::Key { code: KeyCode::Char('a'), modifiers: none(), release: false }, &keys, screen());
    assert!(matches!(
        a.as_slice(),
        [HostAction::ClearNotification, HostAction::ClearCompletion, HostAction::Write(b)] if b == b"a"
    ));
    assert!(host.dirty);
    let released = host.key(Event::Key { code: KeyCode::Char('a'), modifiers: none(), release: true }, &keys, screen());
    assert!(released.is_empty());
}

#[test]
fn history_search_suppresses_queries_until_escape() {
    let (mut host, _) = at_prompt();
    let keys = KeyBindings::default();
    let ctrl = KeyModifiers { shift: false, alt: false, control: true };
    host.key(Event::Key { code: KeyCode::Char('r'), modifiers: ctrl, release: false }, &keys, screen());
    assert!(host.nested_edit);
    host.key(Event::Key { code: KeyCode::Char('x'), modifiers: none(), release: false }, &keys, screen());
    assert!(!host.dirty);
    host.key(Event::Key { code: KeyCode::Esc, modifiers: none(), release: false }, &keys, screen());
    assert!(!host.nested_edit);
}

#[test]
fn menu_keys_move_the_selection() {
    let (mut host, _) = at_prompt();
    let keys = KeyBindings::default();
    let ids = vec!["a".to_string(), "b".to_string(), "c".to_string()];
    host.show_completion(&ids, None);
    assert_eq!((host.candidates, host.selected), (3, 0));
    let up = Event::Key { code: KeyCode::Up, modifiers: none(), release: false };
    let a = host.key(up, &keys, screen());
    assert_eq!(host.selected, 2);
    assert!(matches!(a.as_slice(), [HostAction::ClearNotification]));
    host.key(Event::Key { code: KeyCode::Down, modifiers: none(), release: false }, &keys, screen());
    assert_eq!(host.selected, 0);
    let a = host.key(Event::Key { code: KeyCode::Tab, modifiers: none(), release: false }, &keys, screen());
    assert!(matches!(a.as_slice(), [HostAction::ClearNotification, HostAction::Accept]));
    host.show_completion(&vec!["x".to_string(), "c".to_string()], Some("c"));
    assert_eq!(host.selected, 1);
    host.show_completion(&vec!["y".to_string()], Some("c"));
    assert_eq!(host.selected, 0);
}

#[test]
fn resize_only_when_the_size_changes() {
    let (mut host, _) = at_prompt();
    let keys = KeyBindings::default();
    assert!(host.key(Event::Resize(80, 24), &keys, screen()).is_empty());
    let a = host.key(Event::Resize(100, 30), &keys, screen());
    assert!(matches!(a.as_slice(), [HostAction::Resize(100, 30)]));
}

#[test]
fn adapter_errors_that_break_the_adapter_make_it_unready() {
    let (mut host, mut env) = at_prompt();
    let a = host.message(&mut env, HostMessage::Error { code: "key_chord_collision".into() });
    assert!(matches!(a.as_slice(), [HostAction::AdapterError(c), HostAction::ClearCompletion] if c == "key_chord_collision"));
    assert!(!host.ready);
    let (mut host, mut env) = at_prompt();
    host.message(&mut env, HostMessage::Error { code: "other".into() });
    assert!(host.ready);
}

#[test]
fn native_completion_is_shown_only_for_the_request_in_flight() {
    let (mut host, mut env) = at_prompt();
    host.native_request = Some(host.revision);
    let reply = |request| HostMessage::NativeCompletion {
        request,
        ok: true,
        line: Some("Get-Ch".into()),
        cursor: Some(6),
        start: Some(0),
        end: Some(6),
        candidates: Some(80),
    };
    assert!(host.message(&mut env, reply(Some(999))).is_empty());
    let a = host.message(&mut env, reply(Some(host.revision)));
    assert!(matches!(a.as_slice(), [HostAction::ShowNative { cursor: 6, start: 0, end: 6, .. }]));
    assert_eq!(host.candidates, 50);
    assert!(host.native_menu);
    assert_eq!(host.native_request, None);
}

#[test]
fn cursor_reports_count_from_one() {
    assert_eq!(cursor_report(false, 0, 4), b"\x1b[1;5R".to_vec());
    assert_eq!(cursor_report(true, 9, 119), b"\x1b[?10;120R".to_vec());
}

#[test]
fn stale_completions_are_not_shown() {
    let (host, _) = at_prompt();
    assert!(host.accepts_completion(host.revision));
    assert!(!host.accepts_completion(host.revision + 1));
}

#[test]
fn a_reload_reopens_completion_and_registers_changed_keys() {
    let (mut host, _) = at_prompt();
    let before = host.revision;
    let keys = KeyBindings::default();
    let ctrl_alt = KeyModifiers { shift: false, alt: true, control: true };
    let a = host.key(Event::Key { code: KeyCode::Char('r'), modifiers: ctrl_alt, release: false }, &keys, screen());
    assert!(matches!(a.as_slice(), [HostAction::ClearNotification, HostAction::Reload]));
    let a = host.reloaded(true);
    assert!(matches!(a.as_slice(), [HostAction::ClearCompletion]));
    assert!(host.reset_pending && host.dirty && host.explicit && !host.dismissed);
    assert_eq!(host.revision, before + 1);
}
