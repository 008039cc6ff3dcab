//! Terminal input: what a key press, paste, resize or mouse event sends to
//! the shell running under the host, as VT byte sequences.
use vstd::prelude::*;
use vstd::utf8::encode_utf8;
use crate::config::Input;
use crate::text::{char_from_u32, decimal, is_scalar, push_char, push_decimal};

verus! {

/// A key of the keyboard.
#[derive(Debug, Clone, Copy, PartialEq, Eq, Structural)]
pub enum KeyCode {
    Char(char),
    Tab,
    BackTab,
    Enter,
    Backspace,
    Esc,
    Left,
    Right,
    Up,
    Down,
    Home,
    End,
    Delete,
    Insert,
    PageUp,
    PageDown,
    F(u8),
    Other,
}

/// The modifiers held with a key or mouse event.
#[derive(Debug, Clone, Copy, PartialEq, Eq, Structural)]
pub struct KeyModifiers {
    pub shift: bool,
    pub alt: bool,
    pub control: bool,
}

/// A terminal event: a key pressed (or released), a resize, a paste, or
/// anything else.
#[derive(Debug, Clone)]
pub enum Event {
    Key { code: KeyCode, modifiers: KeyModifiers, release: bool },
    Resize(u16, u16),
    Paste(String),
    Other,
}

/// The value of an [`Input`].
#[verifier::ext_equal]
pub enum InputView {
    Bytes(Seq<u8>),
    Tab,
    BackTab,
    Previous,
    Next,
    Dismiss,
    Trigger,
    Native,
    Details,
    Refresh,
    Reload,
    Resize(u16, u16),
}

impl View for Input {
    type V = InputView;

    open spec fn view(&self) -> InputView {
        match self {
            Input::Bytes(b) => InputView::Bytes(b@),
            Input::Tab => InputView::Tab,
            Input::BackTab => InputView::BackTab,
            Input::Previous => InputView::Previous,
            Input::Next => InputView::Next,
            Input::Dismiss => InputView::Dismiss,
            Input::Trigger => InputView::Trigger,
            Input::Native => InputView::Native,
            Input::Details => InputView::Details,
            Input::Refresh => InputView::Refresh,
            Input::Reload => InputView::Reload,
            Input::Resize(w, h) => InputView::Resize(*w, *h),
        }
    }
}

/// The xterm modifier parameter: 1, plus 1 for Shift, 2 for Alt and 4 for
/// Control.
pub open spec fn modifier_code(m: KeyModifiers) -> int {
    1 + (if m.shift { 1int } else { 0 }) + (if m.alt { 2int } else { 0 }) + (if m.control { 4int } else { 0 })
}

/// The decimal digits of a number, as bytes.
pub open spec fn decimal_bytes(n: nat) -> Seq<u8> {
    encode_utf8(decimal(n))
}

/// A cursor key: `ESC [ 1 ; m final` with modifiers, else `ESC [ final`
/// (`ESC O final` in application cursor mode).
pub open spec fn csi_key(modifier: int, final_byte: u8, application_cursor: bool) -> Seq<u8> {
    if modifier > 1 {
        seq![0x1bu8, 0x5bu8, 0x31u8, 0x3bu8, (0x30 + modifier) as u8, final_byte]
    } else {
        seq![0x1bu8, if application_cursor { 0x4fu8 } else { 0x5bu8 }, final_byte]
    }
}

/// An editing or function key: `ESC [ n ; m ~` with modifiers, else `ESC [ n ~`.
pub open spec fn tilde_key(n: nat, modifier: int) -> Seq<u8> {
    seq![0x1bu8, 0x5bu8] + decimal_bytes(n) + if modifier > 1 {
        seq![0x3bu8, (0x30 + modifier) as u8, 0x7eu8]
    } else {
        seq![0x7eu8]
    }
}

/// The VT number of function keys F5 to F12.
pub open spec fn function_number(n: u8) -> nat {
    if n == 5 { 15 } else if n == 6 { 17 } else if n == 7 { 18 } else if n == 8 { 19 }
    else if n == 9 { 20 } else if n == 10 { 21 } else if n == 11 { 23 } else { 24 }
}

/// The byte a Control chord with an ASCII character sends: the control code
/// of `@` to `_` (letters in either case), else the character itself.
pub open spec fn control_sequence(c: char) -> Seq<u8> {
    let u: int = if 'a' <= c <= 'z' { (c as u32) - 32 } else { c as u32 as int };
    if 0x40 <= u <= 0x5f { seq![(u - 0x40) as u8] } else { encode_utf8(seq![c]) }
}

/// The bytes a key sends, before an Alt prefix, if it sends any.
pub open spec fn key_sequence(code: KeyCode, m: KeyModifiers, application_cursor: bool) -> Option<Seq<u8>> {
    let modifier = modifier_code(m);
    match code {
        KeyCode::Char(c) => if m.control && c == ' ' {
            Some(seq![0u8])
        } else if m.control && (c as u32) < 0x80 {
            Some(control_sequence(c))
        } else {
            Some(encode_utf8(seq![c]))
        },
        KeyCode::Enter => Some(seq![0x0du8]),
        KeyCode::Backspace => Some(if m.control { seq![0x17u8] } else { seq![0x7fu8] }),
        KeyCode::Left => Some(csi_key(modifier, 0x44, application_cursor)),
        KeyCode::Right => Some(csi_key(modifier, 0x43, application_cursor)),
        KeyCode::Up => Some(csi_key(modifier, 0x41, application_cursor)),
        KeyCode::Down => Some(csi_key(modifier, 0x42, application_cursor)),
        KeyCode::Home => Some(csi_key(modifier, 0x48, application_cursor)),
        KeyCode::End => Some(csi_key(modifier, 0x46, application_cursor)),
        KeyCode::Delete => Some(tilde_key(3, modifier)),
        KeyCode::Insert => Some(tilde_key(2, modifier)),
        KeyCode::PageUp => Some(tilde_key(5, modifier)),
        KeyCode::PageDown => Some(tilde_key(6, modifier)),
        KeyCode::Tab => Some(seq![0x09u8]),
        KeyCode::F(n) => if 1 <= n <= 4 {
            if modifier == 1 {
                Some(seq![0x1bu8, 0x4fu8, (0x50 + n - 1) as u8])
            } else {
                Some(csi_key(modifier, (0x50 + n - 1) as u8, application_cursor))
            }
        } else if 5 <= n <= 12 {
            Some(tilde_key(function_number(n), modifier))
        } else {
            None
        },
        _ => None,
    }
}

/// What Ctrl+Backspace sends on Windows: the win32-input-mode press and
/// release of Backspace with Control, which PSReadLine binds differently
/// from Ctrl+W.
pub open spec fn windows_control_backspace() -> Seq<u8> {
    encode_utf8("\x1b[8;14;127;1;8;1_\x1b[8;14;127;0;8;1_"@)
}

/// What a pressed key asks for: menu keys (Tab, Shift+Tab, plain arrows,
/// Escape) act on the menu; other keys are forwarded as bytes, with an ESC
/// before Alt with a character, Enter or Backspace.
pub open spec fn key_input(code: KeyCode, m: KeyModifiers, application_cursor: bool, windows: bool) -> Option<InputView> {
    let plain = !m.control && !m.alt && !m.shift;
    if code == KeyCode::Tab && !m.alt && !m.control {
        Some(InputView::Tab)
    } else if code == KeyCode::BackTab {
        Some(InputView::BackTab)
    } else if code == KeyCode::Down && plain {
        Some(InputView::Next)
    } else if code == KeyCode::Up && plain {
        Some(InputView::Previous)
    } else if code == KeyCode::Esc {
        Some(InputView::Dismiss)
    } else if windows && m.control && code == KeyCode::Backspace {
        Some(InputView::Bytes(windows_control_backspace()))
    } else {
        match key_sequence(code, m, application_cursor) {
            Some(s) => Some(InputView::Bytes(
                if m.alt && (code is Char || code == KeyCode::Enter || code == KeyCode::Backspace) {
                    seq![0x1bu8] + s
                } else {
                    s
                },
            )),
            None => None,
        }
    }
}

/// What a terminal event asks for (see [`key_input`]); a paste is
/// forwarded as its UTF-8 bytes and a released key asks for nothing.
pub open spec fn event_input(e: Event, application_cursor: bool, windows: bool) -> Option<InputView> {
    match e {
        Event::Resize(w, h) => Some(InputView::Resize(w, h)),
        Event::Paste(s) => Some(InputView::Bytes(encode_utf8(s@))),
        Event::Key { code, modifiers, release } => if release {
            None
        } else {
            key_input(code, modifiers, application_cursor, windows)
        },
        Event::Other => None,
    }
}

fn utf8_of(s: &String) -> (r: Vec<u8>)
    ensures
        r@ == encode_utf8(s@),
{
    let b = s.as_str().as_bytes();
    let mut r: Vec<u8> = Vec::new();
    let mut i: usize = 0;
    while i < b.len()
        invariant
            i <= b@.len(),
            b@ == encode_utf8(s@),
            r@ == b@.take(i as int),
        decreases b@.len() - i,
    {
        r.push(b[i]);
        assert(b@.take(i as int + 1) =~= b@.take(i as int).push(b@[i as int]));
        i = i + 1;
    }
    assert(b@.take(i as int) =~= b@);
    r
}

fn push_all(v: &mut Vec<u8>, s: &Vec<u8>)
    ensures
        final(v)@ == old(v)@ + s@,
{
    let mut i: usize = 0;
    let ghost start = v@;
    while i < s.len()
        invariant
            i <= s@.len(),
            v@ == start + s@.take(i as int),
        decreases s@.len() - i,
    {
        v.push(s[i]);
        assert(s@.take(i as int + 1) =~= s@.take(i as int).push(s@[i as int]));
        i = i + 1;
    }
    assert(s@.take(i as int) =~= s@);
}

pub(crate) fn decimal_vec(n: usize) -> (r: Vec<u8>)
    ensures
        r@ == decimal_bytes(n as nat),
{
    let mut s = String::new();
    push_decimal(&mut s, n);
    assert(s@ =~= decimal(n as nat));
    utf8_of(&s)
}

fn csi_key_exec(modifier: u8, final_byte: u8, application_cursor: bool) -> (r: Vec<u8>)
    requires
        1 <= modifier <= 8,
    ensures
        r@ == csi_key(modifier as int, final_byte, application_cursor),
{
    if modifier > 1 {
        vec![0x1b, 0x5b, 0x31, 0x3b, 0x30 + modifier, final_byte]
    } else {
        vec![0x1b, if application_cursor { 0x4f } else { 0x5b }, final_byte]
    }
}

fn tilde_key_exec(n: usize, modifier: u8) -> (r: Vec<u8>)
    requires
        1 <= modifier <= 8,
    ensures
        r@ == tilde_key(n as nat, modifier as int),
{
    let mut r: Vec<u8> = vec![0x1b, 0x5b];
    let d = decimal_vec(n);
    push_all(&mut r, &d);
    if modifier > 1 {
        r.push(0x3b);
        r.push(0x30 + modifier);
        r.push(0x7e);
    } else {
        r.push(0x7e);
    }
    r
}

fn char_bytes(c: char) -> (r: Vec<u8>)
    ensures
        r@ == encode_utf8(seq![c]),
{
    let mut s = String::new();
    push_char(&mut s, c);
    assert(s@ =~= seq![c]);
    utf8_of(&s)
}

fn key_sequence_exec(code: KeyCode, m: KeyModifiers, application_cursor: bool) -> (r: Option<Vec<u8>>)
    ensures
        match key_sequence(code, m, application_cursor) {
            Some(s) => r matches Some(v) && v@ == s,
            None => r is None,
        },
{
    let modifier: u8 = 1 + (if m.shift { 1u8 } else { 0 }) + (if m.alt { 2u8 } else { 0 }) + (if m.control { 4u8 } else { 0 });
    assert(modifier as int == modifier_code(m));
    match code {
        KeyCode::Char(c) => {
            if m.control && c == ' ' {
                Some(vec![0u8])
            } else if m.control && (c as u32) < 0x80 {
                let u: u32 = if 'a' <= c && c <= 'z' { (c as u32) - 32 } else { c as u32 };
                if 0x40 <= u && u <= 0x5f {
                    Some(vec![(u - 0x40) as u8])
                } else {
                    Some(char_bytes(c))
                }
            } else {
                Some(char_bytes(c))
            }
        },
        KeyCode::Enter => Some(vec![0x0d]),
        KeyCode::Backspace => Some(if m.control { vec![0x17] } else { vec![0x7f] }),
        KeyCode::Left => Some(csi_key_exec(modifier, 0x44, application_cursor)),
        KeyCode::Right => Some(csi_key_exec(modifier, 0x43, application_cursor)),
        KeyCode::Up => Some(csi_key_exec(modifier, 0x41, application_cursor)),
        KeyCode::Down => Some(csi_key_exec(modifier, 0x42, application_cursor)),
        KeyCode::Home => Some(csi_key_exec(modifier, 0x48, application_cursor)),
        KeyCode::End => Some(csi_key_exec(modifier, 0x46, application_cursor)),
        KeyCode::Delete => Some(tilde_key_exec(3, modifier)),
        KeyCode::Insert => Some(tilde_key_exec(2, modifier)),
        KeyCode::PageUp => Some(tilde_key_exec(5, modifier)),
        KeyCode::PageDown => Some(tilde_key_exec(6, modifier)),
        KeyCode::Tab => Some(vec![0x09]),
        KeyCode::F(n) => {
            if 1 <= n && n <= 4 {
                if modifier == 1 {
                    Some(vec![0x1b, 0x4f, 0x50 + n - 1])
                } else {
                    Some(csi_key_exec(modifier, 0x50 + n - 1, application_cursor))
                }
            } else if 5 <= n && n <= 12 {
                let number: usize = if n == 5 { 15 } else if n == 6 { 17 } else if n == 7 { 18 } else if n == 8 { 19 }
                    else if n == 9 { 20 } else if n == 10 { 21 } else if n == 11 { 23 } else { 24 };
                Some(tilde_key_exec(number, modifier))
            } else {
                None
            }
        },
        _ => None,
    }
}

/// What a terminal event asks for (see [`event_input`]). `windows` tells
/// whether the shell runs on Windows, where Ctrl+Backspace has its own
/// binding.
pub fn translate(event: Event, application_cursor: bool, windows: bool) -> (r: Option<Input>)
    ensures
        match r {
            Some(i) => Some(i@),
            None => None,
        } == event_input(event, application_cursor, windows),
{
    match event {
        Event::Resize(w, h) => Some(Input::Resize(w, h)),
        Event::Paste(s) => Some(Input::Bytes(utf8_of(&s))),
        Event::Key { code, modifiers, release } => {
            if release {
                return None;
            }
            let ctrl = modifiers.control;
            let alt = modifiers.alt;
            let shift = modifiers.shift;
            if code == KeyCode::Tab && !alt && !ctrl {
                return Some(Input::Tab);
            }
            if code == KeyCode::BackTab {
                return Some(Input::BackTab);
            }
            if code == KeyCode::Down && !ctrl && !alt && !shift {
                return Some(Input::Next);
            }
            if code == KeyCode::Up && !ctrl && !alt && !shift {
                return Some(Input::Previous);
            }
            if code == KeyCode::Esc {
                return Some(Input::Dismiss);
            }
            if windows && ctrl && code == KeyCode::Backspace {
                let text = "\x1b[8;14;127;1;8;1_\x1b[8;14;127;0;8;1_".to_owned();
                return Some(Input::Bytes(utf8_of(&text)));
            }
            match key_sequence_exec(code, modifiers, application_cursor) {
                Some(sequence) => {
                    let prefixed = match code {
                        KeyCode::Char(_) | KeyCode::Enter | KeyCode::Backspace => alt,
                        _ => false,
                    };
                    if prefixed {
                        let mut bytes: Vec<u8> = vec![0x1b];
                        push_all(&mut bytes, &sequence);
                        Some(Input::Bytes(bytes))
                    } else {
                        Some(Input::Bytes(sequence))
                    }
                },
                None => None,
            }
        },
        Event::Other => None,
    }
}

/// A mouse button.
#[derive(Debug, Clone, Copy, PartialEq, Eq, Structural)]
pub enum MouseButton {
    Left,
    Middle,
    Right,
}

/// What the mouse did.
#[derive(Debug, Clone, Copy, PartialEq, Eq, Structural)]
pub enum MouseKind {
    Down(MouseButton),
    Up(MouseButton),
    Drag(MouseButton),
    Moved,
    ScrollUp,
    ScrollDown,
    ScrollLeft,
    ScrollRight,
}

/// A mouse event at a zero-based cell.
#[derive(Debug, Clone, Copy, PartialEq, Eq, Structural)]
pub struct MouseEvent {
    pub kind: MouseKind,
    pub column: u16,
    pub row: u16,
    pub modifiers: KeyModifiers,
}

/// Which mouse events the application in the terminal asked for.
#[derive(Debug, Clone, Copy, PartialEq, Eq, Structural)]
pub enum MouseMode {
    Off,
    Press,
    PressRelease,
    ButtonMotion,
    AnyMotion,
}

/// How the application asked mouse events to be encoded.
#[derive(Debug, Clone, Copy, PartialEq, Eq, Structural)]
pub enum MouseEncoding {
    Default,
    Utf8,
    Sgr,
}

pub open spec fn button_code(b: MouseButton) -> u16 {
    match b {
        MouseButton::Left => 0,
        MouseButton::Middle => 1,
        MouseButton::Right => 2,
    }
}

/// The button code of an event that the mode reports.
pub open spec fn mouse_code(kind: MouseKind, mode: MouseMode) -> Option<u16> {
    match kind {
        MouseKind::Down(b) => Some(button_code(b)),
        MouseKind::Up(b) => if mode != MouseMode::Press { Some(button_code(b)) } else { None },
        MouseKind::Drag(b) => if mode == MouseMode::ButtonMotion || mode == MouseMode::AnyMotion {
            Some((button_code(b) + 32) as u16)
        } else {
            None
        },
        MouseKind::Moved => if mode == MouseMode::AnyMotion { Some(35) } else { None },
        MouseKind::ScrollUp => Some(64),
        MouseKind::ScrollDown => Some(65),
        MouseKind::ScrollLeft => Some(66),
        MouseKind::ScrollRight => Some(67),
    }
}

/// The code with the modifier bits: Shift 4, Alt 8, Control 16.
pub open spec fn with_modifiers(code: u16, m: KeyModifiers) -> u16 {
    let a = if m.shift { code | 4 } else { code };
    let b = if m.alt { a | 8 } else { a };
    if m.control { b | 16 } else { b }
}

/// The bytes a mouse event sends to an application that asked for mouse
/// reports, if the mode reports it: `ESC [ < code ; x ; y M` (`m` on
/// release) in SGR encoding; else `ESC [ M` and the code (release as 3),
/// column and row plus 32, as bytes or (in UTF-8 encoding) as characters.
pub open spec fn spec_mouse_bytes(e: MouseEvent, mode: MouseMode, encoding: MouseEncoding) -> Option<Seq<u8>> {
    if mode == MouseMode::Off {
        None
    } else {
        match mouse_code(e.kind, mode) {
            None => None,
            Some(base) => {
                let code = with_modifiers(base, e.modifiers);
                let release = e.kind is Up;
                let x = e.column as u32 + 1;
                let y = e.row as u32 + 1;
                if encoding == MouseEncoding::Sgr {
                    Some(encode_utf8(seq!['\x1b', '[', '<'] + decimal(code as nat) + seq![';'] + decimal(x as nat) + seq![';']
                        + decimal(y as nat) + seq![if release { 'm' } else { 'M' }]))
                } else {
                    let c = if release { (code & !3u16) | 3 } else { code };
                    let (v1, v2, v3) = (c as u32 + 32, x + 32, y + 32);
                    if encoding == MouseEncoding::Utf8 {
                        if is_scalar(v1 as u32) && is_scalar(v2 as u32) && is_scalar(v3 as u32) {
                            Some(seq![0x1bu8, 0x5bu8, 0x4du8] + encode_utf8(seq![v1 as char, v2 as char, v3 as char]))
                        } else {
                            None
                        }
                    } else if v1 <= 255 && v2 <= 255 && v3 <= 255 {
                        Some(seq![0x1bu8, 0x5bu8, 0x4du8, v1 as u8, v2 as u8, v3 as u8])
                    } else {
                        None
                    }
                }
            },
        }
    }
}

fn mouse_code_exec(kind: MouseKind, mode: MouseMode) -> (r: Option<u16>)
    ensures
        r == mouse_code(kind, mode),
{
    let button = |b: MouseButton| -> (c: u16)
        ensures
            c == button_code(b),
    {
        match b {
            MouseButton::Left => 0,
            MouseButton::Middle => 1,
            MouseButton::Right => 2,
        }
    };
    match kind {
        MouseKind::Down(b) => Some(button(b)),
        MouseKind::Up(b) => if mode != MouseMode::Press { Some(button(b)) } else { None },
        MouseKind::Drag(b) => if mode == MouseMode::ButtonMotion || mode == MouseMode::AnyMotion {
            Some(button(b) + 32)
        } else {
            None
        },
        MouseKind::Moved => if mode == MouseMode::AnyMotion { Some(35) } else { None },
        MouseKind::ScrollUp => Some(64),
        MouseKind::ScrollDown => Some(65),
        MouseKind::ScrollLeft => Some(66),
        MouseKind::ScrollRight => Some(67),
    }
}

fn with_modifiers_exec(code: u16, m: KeyModifiers) -> (r: u16)
    ensures
        r == with_modifiers(code, m),
{
    let a = if m.shift { code | 4 } else { code };
    let b = if m.alt { a | 8 } else { a };
    if m.control { b | 16 } else { b }
}

fn sgr_bytes(code: u16, x: u32, y: u32, release: bool) -> (r: Vec<u8>)
    ensures
        r@ == encode_utf8(seq!['\x1b', '[', '<'] + decimal(code as nat) + seq![';'] + decimal(x as nat) + seq![';']
            + decimal(y as nat) + seq![if release { 'm' } else { 'M' }]),
{
    let mut s = String::new();
    push_char(&mut s, '\x1b');
    push_char(&mut s, '[');
    push_char(&mut s, '<');
    push_decimal(&mut s, code as usize);
    push_char(&mut s, ';');
    push_decimal(&mut s, x as usize);
    push_char(&mut s, ';');
    push_decimal(&mut s, y as usize);
    push_char(&mut s, if release { 'm' } else { 'M' });
    assert(s@ =~= seq!['\x1b', '[', '<'] + decimal(code as nat) + seq![';'] + decimal(x as nat) + seq![';']
        + decimal(y as nat) + seq![if release { 'm' } else { 'M' }]);
    utf8_of(&s)
}

fn legacy_bytes(v1: u32, v2: u32, v3: u32, utf8: bool) -> (r: Option<Vec<u8>>)
    ensures
        utf8 ==> match r {
            Some(b) => is_scalar(v1) && is_scalar(v2) && is_scalar(v3)
                && b@ == seq![0x1bu8, 0x5bu8, 0x4du8] + encode_utf8(seq![v1 as char, v2 as char, v3 as char]),
            None => !(is_scalar(v1) && is_scalar(v2) && is_scalar(v3)),
        },
        !utf8 ==> match r {
            Some(b) => v1 <= 255 && v2 <= 255 && v3 <= 255 && b@ == seq![0x1bu8, 0x5bu8, 0x4du8, v1 as u8, v2 as u8, v3 as u8],
            None => !(v1 <= 255 && v2 <= 255 && v3 <= 255),
        },
{
    let mut bytes: Vec<u8> = vec![0x1b, 0x5b, 0x4d];
    if utf8 {
        let mut s = String::new();
        match char_from_u32(v1) {
            Some(c) => push_char(&mut s, c),
            None => return None,
        }
        match char_from_u32(v2) {
            Some(c) => push_char(&mut s, c),
            None => return None,
        }
        match char_from_u32(v3) {
            Some(c) => push_char(&mut s, c),
            None => return None,
        }
        assert(s@ =~= seq![v1 as char, v2 as char, v3 as char]);
        let encoded = utf8_of(&s);
        push_all(&mut bytes, &encoded);
        Some(bytes)
    } else if v1 <= 255 && v2 <= 255 && v3 <= 255 {
        bytes.push(v1 as u8);
        bytes.push(v2 as u8);
        bytes.push(v3 as u8);
        Some(bytes)
    } else {
        None
    }
}

/// The bytes a mouse event sends, given the mode and encoding that the
/// application in the terminal asked for (see [`spec_mouse_bytes`]).
pub fn mouse_bytes(event: MouseEvent, mode: MouseMode, encoding: MouseEncoding) -> (r: Option<Vec<u8>>)
    ensures
        match spec_mouse_bytes(event, mode, encoding) {
            Some(b) => r matches Some(v) && v@ == b,
            None => r is None,
        },
{
    if mode == MouseMode::Off {
        return None;
    }
    let base = match mouse_code_exec(event.kind, mode) {
        Some(c) => c,
        None => return None,
    };
    let release = match event.kind {
        MouseKind::Up(_) => true,
        _ => false,
    };
    let code = with_modifiers_exec(base, event.modifiers);
    let x: u32 = event.column as u32 + 1;
    let y: u32 = event.row as u32 + 1;
    if encoding == MouseEncoding::Sgr {
        return Some(sgr_bytes(code, x, y, release));
    }
    let c = if release { (code & !3u16) | 3 } else { code };
    legacy_bytes(c as u32 + 32, x + 32, y + 32, encoding == MouseEncoding::Utf8)
}


/// The arrow keys send xterm cursor sequences told apart by their last
/// byte: `A` up, `B` down, `C` right, `D` left (and `H` Home, `F` End),
/// whatever the modifiers and cursor mode. Right and Left always reach the shell as such a sequence;
/// Up and Down do when a modifier is held, and move through the menu
/// otherwise.
pub proof fn law_arrow_keys_send_their_own_final_byte(m: KeyModifiers, application_cursor: bool, windows: bool)
    ensures
        event_input(Event::Key { code: KeyCode::Right, modifiers: m, release: false }, application_cursor, windows)
            matches Some(InputView::Bytes(b)) && b.len() >= 3 && b[0] == 0x1b && b.last() == 0x43,
        event_input(Event::Key { code: KeyCode::Left, modifiers: m, release: false }, application_cursor, windows)
            matches Some(InputView::Bytes(b)) && b.len() >= 3 && b[0] == 0x1b && b.last() == 0x44,
        (m.shift || m.alt || m.control) ==> (event_input(Event::Key { code: KeyCode::Up, modifiers: m, release: false },
            application_cursor, windows) matches Some(InputView::Bytes(b)) && b.len() >= 3 && b[0] == 0x1b && b.last() == 0x41),
        (m.shift || m.alt || m.control) ==> (event_input(Event::Key { code: KeyCode::Down, modifiers: m, release: false },
            application_cursor, windows) matches Some(InputView::Bytes(b)) && b.len() >= 3 && b[0] == 0x1b && b.last() == 0x42),
        !(m.shift || m.alt || m.control) ==> event_input(Event::Key { code: KeyCode::Up, modifiers: m, release: false },
            application_cursor, windows) == Some(InputView::Previous),
        !(m.shift || m.alt || m.control) ==> event_input(Event::Key { code: KeyCode::Down, modifiers: m, release: false },
            application_cursor, windows) == Some(InputView::Next),
        event_input(Event::Key { code: KeyCode::Home, modifiers: m, release: false }, application_cursor, windows)
            matches Some(InputView::Bytes(b)) && b.len() >= 3 && b[0] == 0x1b && b.last() == 0x48,
        event_input(Event::Key { code: KeyCode::End, modifiers: m, release: false }, application_cursor, windows)
            matches Some(InputView::Bytes(b)) && b.len() >= 3 && b[0] == 0x1b && b.last() == 0x46,
{
}

} // verus!
