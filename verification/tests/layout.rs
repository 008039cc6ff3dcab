use shellsense::layout::tail_rows;
use shellsense::model::Completion;
use shellsense::session::{Interaction, Query, Session};

#[test]
fn tail_rows_round_each_line_up_and_count_line_feeds() {
    assert_eq!(tail_rows("", 80), 0);
    assert_eq!(tail_rows("abc", 2), 2);
    assert_eq!(tail_rows("ab\ncd", 80), 3);
    assert_eq!(tail_rows("中文", 3), 2);
    assert_eq!(tail_rows("abc", 0), 3);
    assert_eq!(tail_rows("\n", 10), 1);
    assert_eq!(tail_rows("e\u{301}e\u{301}", 1), 2);
}

#[test]
fn frames_report_the_tail_and_the_interaction() {
    let mut session = Session::new();
    session
        .query(&Query { revision: Some(1), line: Some("git status".into()), cursor: Some(3), width: Some(4), rows: Some(20) })
        .unwrap();
    let frame = session.render(Completion::default());
    assert_eq!(frame.tail_rows, 2);
    assert_eq!(frame.interaction, Interaction::Completion);
    session.open_workbench(Vec::new());
    assert_eq!(session.render(Completion::default()).interaction, Interaction::Hub);
}
