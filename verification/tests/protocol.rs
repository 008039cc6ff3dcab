use shellsense::model::InputContext;
use shellsense::protocol::{byte_to_utf16, decode_context, utf16_length, utf16_to_byte};

#[test]
fn offset_units_are_not_interchangeable() {
    assert_eq!(utf16_to_byte("a你😀b", 4), Some(8));
    assert_eq!(utf16_to_byte("a你😀b", 3), None);
    assert_eq!(byte_to_utf16("a你😀b", 8), Some(4));
    assert_eq!(byte_to_utf16("a你😀b", 2), None);
}

#[test]
fn offsets_at_the_ends_of_the_line() {
    assert_eq!(utf16_to_byte("", 0), Some(0));
    assert_eq!(utf16_to_byte("a你😀b", 5), Some(9));
    assert_eq!(utf16_to_byte("a你😀b", 6), None);
    assert_eq!(byte_to_utf16("a你😀b", 9), Some(5));
    assert_eq!(byte_to_utf16("a你😀b", 10), None);
}

#[test]
fn contexts_move_to_byte_offsets_or_are_suppressed() {
    let context = InputContext { command: "git".into(), replace_start: 2, replace_end: 4, ..Default::default() };
    let moved = decode_context("a你😀b", context.clone());
    assert_eq!((moved.replace_start, moved.replace_end, moved.suppressed), (4, 8, false));
    assert_eq!(moved.command, "git");
    let split = decode_context("a你😀b", InputContext { replace_end: 3, ..context.clone() });
    assert_eq!((split.replace_start, split.replace_end, split.suppressed), (0, 0, true));
    let reversed = decode_context("a你😀b", InputContext { replace_start: 4, replace_end: 2, ..context });
    assert!(reversed.suppressed);
    assert_eq!(utf16_length("a你😀b"), 5);
}
