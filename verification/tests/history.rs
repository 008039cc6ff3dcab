use shellsense::history::{history_entries, merged_history, merged_history_with_status};

#[test]
fn tail_budget_discards_an_incomplete_multiline_record() {
    let text = "old command with a very long prefix`\ncontinued old line\nnew`\npart\nlatest\n";
    let tail = &text[text.len() - 23..];
    let (history, partial) = history_entries(tail, true, 10);
    assert!(partial);
    assert_eq!(history, vec!["new\npart", "latest"]);
}

#[test]
fn whole_history_keeps_continuations_and_the_latest_records() {
    let (history, partial) = history_entries("a`\r\nb\r\n\r\nc\nd", false, 10);
    assert!(!partial);
    assert_eq!(history, vec!["a\nb", "c", "d"]);
    let (last, partial) = history_entries("1\n2\n3\n", false, 2);
    assert!(partial);
    assert_eq!(last, vec!["2", "3"]);
    assert_eq!(history_entries("", false, 5), (Vec::new(), false));
}

#[test]
fn merged_history_is_newest_first_and_distinct() {
    let file = (vec!["git status".to_string(), "cargo test".to_string(), " ".to_string()], true);
    let session = vec!["git status".to_string(), "ls".to_string()];
    let (values, partial) = merged_history_with_status(10, &session, file.clone());
    assert!(partial);
    assert_eq!(values, vec!["ls", "git status", "cargo test"]);
    assert_eq!(merged_history(2, &session, file), vec!["ls", "git status"]);
}
