use llm_streaming::aggregator::{CommentStore, SteamEvent};

fn pair(u: &str, c: &str) -> (String, String) {
    (u.to_string(), c.to_string())
}

#[test]
fn request_flushes_whole_buffer_in_order() {
    let mut s = CommentStore::new(10);
    assert_eq!(s.on_comment("a".into(), "1".into()), None);
    assert_eq!(s.on_comment("b".into(), "2".into()), None);
    assert_eq!(s.on_comment("c".into(), "3".into()), None);
    let batch = s.request_batch().unwrap();
    assert_eq!(Vec::from(batch), vec![pair("a", "1"), pair("b", "2"), pair("c", "3")]);
    assert!(s.comments.is_empty());
    assert!(!s.awaiting);
}

#[test]
fn burst_keeps_most_recent() {
    let mut s = CommentStore::new(3);
    for i in 0..7 {
        s.on_comment(format!("u{}", i), format!("m{}", i));
        assert!(s.comments.len() <= 3);
    }
    let batch = Vec::from(s.request_batch().unwrap());
    assert_eq!(batch, vec![pair("u4", "m4"), pair("u5", "m5"), pair("u6", "m6")]);
}

#[test]
fn empty_request_answers_with_next_comment() {
    let mut s = CommentStore::new(5);
    assert!(s.request_batch().is_none());
    assert!(s.awaiting);
    let ev = SteamEvent::Comment { user: "alice".into(), content: "hi".into() };
    let batch = s.on_event(ev).unwrap();
    assert_eq!(Vec::from(batch), vec![pair("alice", "hi")]);
    assert!(!s.awaiting);
    assert!(s.comments.is_empty());
    assert_eq!(s.on_comment("bob".into(), "yo".into()), None);
    assert_eq!(s.comments.len(), 1);
}

#[test]
fn zero_capacity_keeps_nothing() {
    let mut s = CommentStore::new(0);
    s.on_comment("a".into(), "1".into());
    assert!(s.comments.is_empty());
}
