use shellsense::config::Input;
use shellsense::input::{
    mouse_bytes, translate, Event, KeyCode, KeyModifiers, MouseButton, MouseEncoding, MouseEvent, MouseKind, MouseMode,
};

const NONE: KeyModifiers = KeyModifiers { shift: false, alt: false, control: false };
const CONTROL: KeyModifiers = KeyModifiers { shift: false, alt: false, control: true };
const ALT: KeyModifiers = KeyModifiers { shift: false, alt: true, control: false };
const SHIFT: KeyModifiers = KeyModifiers { shift: true, alt: false, control: false };

fn key(code: KeyCode, modifiers: KeyModifiers) -> Event {
    Event::Key { code, modifiers, release: false }
}

fn bytes(event: Event, application_cursor: bool) -> Vec<u8> {
    match translate(event, application_cursor, false).unwrap() {
        Input::Bytes(b) => b,
        other => panic!("{other:?}"),
    }
}

#[test]
fn unicode_and_ctrl_c_are_forwarded() {
    assert_eq!(bytes(key(KeyCode::Char('你'), NONE), false), "你".as_bytes());
    assert_eq!(bytes(key(KeyCode::Char('c'), CONTROL), false), b"\x03");
    assert_eq!(bytes(key(KeyCode::Left, CONTROL), false), b"\x1b[1;5D");
}

#[test]
fn menu_keys_and_sequences() {
    assert!(matches!(translate(key(KeyCode::Tab, NONE), false, false), Some(Input::Tab)));
    assert!(matches!(translate(key(KeyCode::BackTab, SHIFT), false, false), Some(Input::BackTab)));
    assert!(matches!(translate(key(KeyCode::Down, NONE), false, false), Some(Input::Next)));
    assert!(matches!(translate(key(KeyCode::Up, NONE), false, false), Some(Input::Previous)));
    assert!(matches!(translate(key(KeyCode::Esc, NONE), false, false), Some(Input::Dismiss)));
    assert!(matches!(translate(Event::Resize(80, 24), false, false), Some(Input::Resize(80, 24))));
    assert!(translate(Event::Key { code: KeyCode::Char('a'), modifiers: NONE, release: true }, false, false).is_none());
    assert!(translate(Event::Other, false, false).is_none());
    assert!(translate(key(KeyCode::F(13), NONE), false, false).is_none());
    assert_eq!(bytes(Event::Paste("a😀".into()), false), "a😀".as_bytes());
    assert_eq!(bytes(key(KeyCode::Up, SHIFT), false), b"\x1b[1;2A");
    assert_eq!(bytes(key(KeyCode::Home, NONE), true), b"\x1bOH");
    assert_eq!(bytes(key(KeyCode::End, NONE), false), b"\x1b[F");
    assert_eq!(bytes(key(KeyCode::Delete, NONE), false), b"\x1b[3~");
    assert_eq!(bytes(key(KeyCode::PageDown, CONTROL), false), b"\x1b[6;5~");
    assert_eq!(bytes(key(KeyCode::F(1), NONE), false), b"\x1bOP");
    assert_eq!(bytes(key(KeyCode::F(4), ALT), false), b"\x1b[1;3S");
    assert_eq!(bytes(key(KeyCode::F(5), NONE), false), b"\x1b[15~");
    assert_eq!(bytes(key(KeyCode::F(12), SHIFT), false), b"\x1b[24;2~");
    assert_eq!(bytes(key(KeyCode::Char(' '), CONTROL), false), b"\0");
    assert_eq!(bytes(key(KeyCode::Char('['), CONTROL), false), b"\x1b");
    assert_eq!(bytes(key(KeyCode::Char('1'), CONTROL), false), b"1");
    assert_eq!(bytes(key(KeyCode::Char('x'), ALT), false), b"\x1bx");
    assert_eq!(bytes(key(KeyCode::Enter, ALT), false), b"\x1b\r");
    assert_eq!(bytes(key(KeyCode::Backspace, CONTROL), false), b"\x17");
    assert_eq!(bytes(key(KeyCode::Backspace, NONE), false), b"\x7f");
    assert_eq!(bytes(key(KeyCode::Tab, CONTROL), false), b"\t");
    match translate(key(KeyCode::Backspace, CONTROL), false, true).unwrap() {
        Input::Bytes(b) => assert_eq!(b, b"\x1b[8;14;127;1;8;1_\x1b[8;14;127;0;8;1_"),
        other => panic!("{other:?}"),
    }
}

#[test]
fn mouse_modes_preserve_sgr_coordinates_and_release() {
    let event = MouseEvent { kind: MouseKind::Down(MouseButton::Left), column: 9, row: 4, modifiers: CONTROL };
    assert!(mouse_bytes(event, MouseMode::Off, MouseEncoding::Default).is_none());
    // After ESC[?1000h ESC[?1006h: press and release reports, SGR encoding.
    let (mode, encoding) = (MouseMode::PressRelease, MouseEncoding::Sgr);
    assert_eq!(mouse_bytes(event, mode, encoding).unwrap(), b"\x1b[<16;10;5M");
    let up = MouseEvent { kind: MouseKind::Up(MouseButton::Left), ..event };
    assert_eq!(mouse_bytes(up, mode, encoding).unwrap(), b"\x1b[<16;10;5m");
    let moved = MouseEvent { kind: MouseKind::Moved, ..event };
    assert!(mouse_bytes(moved, mode, encoding).is_none());
    // After ESC[?1003h: any motion is reported.
    assert!(mouse_bytes(moved, MouseMode::AnyMotion, encoding).is_some());
    // After ESC[?1003l ESC[?1000l: nothing is reported.
    assert!(mouse_bytes(event, MouseMode::Off, encoding).is_none());
}

#[test]
fn legacy_mouse_encodings_offset_by_32() {
    let event = MouseEvent { kind: MouseKind::Down(MouseButton::Right), column: 0, row: 1, modifiers: SHIFT };
    assert_eq!(mouse_bytes(event, MouseMode::Press, MouseEncoding::Default).unwrap(), vec![0x1b, b'[', b'M', 32 + 6, 33, 34]);
    let up = MouseEvent { kind: MouseKind::Up(MouseButton::Middle), ..event };
    assert!(mouse_bytes(up, MouseMode::Press, MouseEncoding::Default).is_none());
    assert_eq!(mouse_bytes(up, MouseMode::PressRelease, MouseEncoding::Default).unwrap(), vec![0x1b, b'[', b'M', 32 + 7, 33, 34]);
    let far = MouseEvent { column: 300, ..event };
    assert!(mouse_bytes(far, MouseMode::Press, MouseEncoding::Default).is_none());
    let expected: Vec<u8> = [&b"\x1b[M"[..], "&\u{14d}\"".as_bytes()].concat();
    assert_eq!(mouse_bytes(far, MouseMode::Press, MouseEncoding::Utf8).unwrap(), expected);
    let drag = MouseEvent { kind: MouseKind::Drag(MouseButton::Left), modifiers: NONE, ..event };
    assert!(mouse_bytes(drag, MouseMode::PressRelease, MouseEncoding::Sgr).is_none());
    assert_eq!(mouse_bytes(drag, MouseMode::ButtonMotion, MouseEncoding::Sgr).unwrap(), b"\x1b[<32;1;2M");
    let scroll = MouseEvent { kind: MouseKind::ScrollDown, modifiers: NONE, ..event };
    assert_eq!(mouse_bytes(scroll, MouseMode::Press, MouseEncoding::Sgr).unwrap(), b"\x1b[<65;1;2M");
}
