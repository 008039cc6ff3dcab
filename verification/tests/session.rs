use shellsense::model::{Candidate, Completion};
use shellsense::session::{AcceptRequest, NavigateError, NavigateRequest, Query, QueryError, Session};

fn query(revision: u64, line: &str, cursor: u64) -> Query {
    Query {
        revision: Some(revision),
        line: Some(line.into()),
        cursor: Some(cursor),
        ..Default::default()
    }
}

#[test]
fn accept_requires_visible_identity_revision_and_utf16_buffer() {
    let mut session = Session::new();
    session.query(&query(1, "😀 gi right", 5)).unwrap();
    let completion = Completion {
        replace_start: 5,
        replace_end: 7,
        candidates: vec![Candidate {
            label: "git".into(),
            insert_text: "git".into(),
            id: "git-stable".into(),
            ..Default::default()
        }],
        ..Default::default()
    };
    let frame = session.render(completion);
    let mut accept = AcceptRequest {
        revision: Some(1),
        frame_id: Some(frame.frame_id),
        candidate_id: Some("git-stable".into()),
        line: Some("😀 gi right".into()),
        cursor: Some(5),
    };
    let edit = session.accept(&accept).unwrap();
    assert_eq!(edit.start, 3);
    assert_eq!(edit.length, 2);
    accept.candidate_id = Some("other".into());
    assert!(session.accept(&accept).is_none());
    accept.candidate_id = Some("git-stable".into());
    accept.cursor = Some(4);
    assert!(session.accept(&accept).is_none());
    accept.cursor = Some(5);
    accept.revision = Some(0);
    assert!(session.accept(&accept).is_none());
}

#[test]
fn stale_queries_and_surrogate_middle_are_rejected() {
    let mut session = Session::new();
    assert!(session.query(&query(1, "😀", 1)).is_err());
    session.query(&query(1, "😀", 2)).unwrap();
    assert!(session.query(&query(1, "wrong", 0)).is_err());
    assert_eq!(session.line(), "😀");
}

#[test]
fn query_errors_name_what_is_missing() {
    let mut session = Session::new();
    assert_eq!(session.query(&Query::default()), Err(QueryError::MissingRevision));
    let no_line = Query { revision: Some(1), ..Default::default() };
    assert_eq!(session.query(&no_line), Err(QueryError::MissingLine));
    let no_cursor = Query { revision: Some(1), line: Some("x".into()), ..Default::default() };
    assert_eq!(session.query(&no_cursor), Err(QueryError::MissingCursor));
    assert_eq!(QueryError::StaleRevision.message(), "stale query revision");
    session.query(&query(2, "ab", 1)).unwrap();
    assert_eq!(session.cursor(), 1);
}

#[test]
fn later_frames_keep_the_selection_and_earlier_answers() {
    let mut session = Session::new();
    session.query(&query(1, "g", 1)).unwrap();
    let first = Completion {
        replace_start: 0,
        replace_end: 1,
        candidates: vec![
            Candidate { label: "git".into(), insert_text: "git".into(), append_space: true, ..Default::default() },
            Candidate { label: "go".into(), insert_text: "go".into(), ..Default::default() },
        ],
        ..Default::default()
    };
    let frame1 = session.render(first.clone());
    assert_eq!(frame1.candidate_id, "git");
    assert_eq!(frame1.expected_cursor, Some(1));
    let reordered = Completion {
        candidates: vec![first.candidates[1].clone(), first.candidates[0].clone()],
        ..first.clone()
    };
    let frame2 = session.render(reordered);
    assert_eq!(frame2.candidate_id, "git");
    let request = AcceptRequest {
        revision: Some(1),
        frame_id: Some(frame1.frame_id),
        candidate_id: Some("git".into()),
        line: Some("g".into()),
        cursor: Some(1),
    };
    let edit = session.accept(&request).unwrap();
    assert_eq!(edit.text, "git ");
    assert_eq!((edit.start, edit.length), (0, 1));
    session.query(&query(2, "g", 1)).unwrap();
    assert!(session.accept(&AcceptRequest { revision: Some(2), ..request }).is_none());
}

fn candidate(id: &str) -> Candidate {
    Candidate {
        label: id.into(),
        insert_text: id.into(),
        id: id.into(),
        ..Default::default()
    }
}

#[test]
fn navigation_moves_within_the_seen_frame_and_wraps() {
    let mut session = Session::new();
    session.query(&query(1, "g", 1)).unwrap();
    let completion = Completion {
        replace_start: 0,
        replace_end: 1,
        candidates: vec![candidate("a"), candidate("b"), candidate("c")],
        ..Default::default()
    };
    let frame = session.render(completion);
    assert_eq!(frame.candidate_id, "a");
    let mut request = NavigateRequest {
        revision: Some(2),
        line: Some("g".into()),
        cursor: Some(1),
        frame_id: Some(frame.frame_id),
        candidate_id: Some("a".into()),
        key: "UpArrow".into(),
    };
    let up = session.navigate(&request).unwrap();
    assert_eq!(up.candidate_id, "c");
    assert_eq!(up.revision, 2);
    request.revision = Some(3);
    request.frame_id = Some(up.frame_id);
    request.candidate_id = Some("c".into());
    request.key = "DownArrow".into();
    let down = session.navigate(&request).unwrap();
    assert_eq!(down.candidate_id, "a");
    request.revision = Some(4);
    request.frame_id = Some(down.frame_id);
    request.candidate_id = Some("a".into());
    request.key = "F1".into();
    assert_eq!(session.navigate(&request).unwrap().candidate_id, "a");
    request.revision = Some(4);
    assert_eq!(session.navigate(&request).unwrap_err(), NavigateError::Stale);
    request.revision = Some(9);
    request.candidate_id = Some("b".into());
    assert_eq!(session.navigate(&request).unwrap_err(), NavigateError::UnseenFrame);
    request.frame_id = None;
    assert_eq!(session.navigate(&request).unwrap_err(), NavigateError::MissingFrame);
    request.revision = None;
    assert_eq!(session.navigate(&request).unwrap_err().message(), "missing menu revision");
}
