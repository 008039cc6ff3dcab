use shellsense::protocol::{Decoder, Part};

fn message(bytes: &[u8]) -> serde_json::Value {
    serde_json::from_slice(bytes).expect("message holds JSON")
}

#[test]
fn osc_survives_every_chunk_boundary_and_semicolon_in_json() {
    let input = b"before\x1b]7776;secret;{\"event\":\"buffer\",\"line\":\"a;b\"}\x07after";
    for split in 0..=input.len() {
        let mut decoder = Decoder::new("secret".into());
        let mut parts = decoder.feed(&input[..split]);
        parts.extend(decoder.feed(&input[split..]));
        let mut output = Vec::new();
        let mut messages = Vec::new();
        for part in parts {
            match part {
                Part::Data(d) => output.extend(d),
                Part::Message(v) => messages.push(message(&v)),
                Part::CursorQuery(_) => panic!(),
            }
        }
        assert_eq!(output, b"beforeafter");
        assert_eq!(messages[0]["line"], "a;b");
    }
}

#[test]
fn ascii_escaped_unicode_paste_survives_the_pipe_fallback_frame_size() {
    let mut frame = b"\x1b]7776;secret;{\"event\":\"buffer\",\"line\":\"".to_vec();
    for _ in 0..200_000 {
        frame.extend_from_slice(b"\\u4f60");
    }
    frame.extend_from_slice(b"\",\"cursor\":200000}\x07");
    let mut decoder = Decoder::new("secret".into());
    let mut messages = Vec::new();
    for chunk in frame.chunks(16_384) {
        for part in decoder.feed(chunk) {
            match part {
                Part::Message(value) => messages.push(message(&value)),
                _ => panic!("private Unicode frame escaped into terminal output"),
            }
        }
    }
    assert_eq!(messages.len(), 1);
    assert_eq!(messages[0]["line"].as_str().unwrap(), "你".repeat(200_000));
}

#[test]
fn unrelated_osc_is_unchanged() {
    let raw = b"\x1b]52;c;aGVsbG8=\x1b\\\x1b]7776;wrong;{}\x07";
    let mut decoder = Decoder::new("secret".into());
    let out: Vec<u8> = decoder
        .feed(raw)
        .into_iter()
        .flat_map(|p| match p {
            Part::Data(d) => d,
            _ => panic!(),
        })
        .collect();
    assert_eq!(out, raw);
}

#[test]
fn cursor_queries_are_handled_at_every_split_without_swallowing_styling() {
    let bytes = b"\x1b[32mtext\x1b[6n\x1b[?6n\x1b[0m";
    for split in 0..=bytes.len() {
        let mut decoder = Decoder::new("token".into());
        let mut parts = decoder.feed(&bytes[..split]);
        parts.extend(decoder.feed(&bytes[split..]));
        let mut output = Vec::new();
        let mut queries = Vec::new();
        for part in parts {
            match part {
                Part::Data(d) => output.extend(d),
                Part::CursorQuery(p) => queries.push(p),
                _ => panic!(),
            }
        }
        assert_eq!(output, b"\x1b[32mtext\x1b[0m");
        assert_eq!(queries, [false, true]);
    }
}

#[test]
fn invalid_json_is_dropped_and_unfinished_sequences_are_returned() {
    let mut decoder = Decoder::new("k".into());
    let parts = decoder.feed(b"a\x1b]7776;k;{not json}\x1b\\b");
    assert_eq!(parts.len(), 2);
    assert!(matches!(&parts[0], Part::Data(d) if d == b"a"));
    assert!(matches!(&parts[1], Part::Data(d) if d == b"b"));
    assert!(decoder.feed(b"\x1b]7776;k;{\"x\":1").is_empty());
    assert_eq!(decoder.finish(), b"\x1b]7776;k;{\"x\":1".to_vec());
    let again = decoder.feed(b"plain");
    assert!(matches!(&again[0], Part::Data(d) if d == b"plain"));
}

#[test]
fn escape_followed_by_escape_keeps_both() {
    let mut decoder = Decoder::new("k".into());
    let parts = decoder.feed(b"\x1b\x1bx");
    assert!(matches!(&parts[0], Part::Data(d) if d == b"\x1b\x1bx"));
}

#[test]
fn unknown_controls_pass_through_at_every_split() {
    let raw: &[u8] = b"\x1b[1;31mred\x1b]0;title\x07\x1b\x1bx\x1b]7776;other;{}\x07\x1b]52;c;x";
    for split in 0..=raw.len() {
        let mut decoder = Decoder::new("secret".into());
        let mut parts = decoder.feed(&raw[..split]);
        parts.extend(decoder.feed(&raw[split..]));
        let mut out: Vec<u8> = Vec::new();
        for part in parts {
            match part {
                Part::Data(d) => out.extend(d),
                _ => panic!("only data expected"),
            }
        }
        out.extend(decoder.finish());
        assert_eq!(out, raw);
    }
}
