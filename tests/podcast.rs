use llm_streaming::podcast::{decimal_string, title_for, BatchAction, PodcastStore, SendMsgRequest, IDLE_SECS};

fn seg(t: &str) -> SendMsgRequest {
    SendMsgRequest { vtb_name: "vtb".into(), text: Some(t.into()), motion: None, voice: None }
}

#[test]
fn one_burst_is_one_episode() {
    let mut b = PodcastStore::new();
    assert!(matches!(b.on_idle(), BatchAction::WaitSegment));
    for t in ["a", "b", "c"] {
        assert!(matches!(b.on_segment(seg(t)), BatchAction::ArmTimer));
    }
    match b.on_idle() {
        BatchAction::Emit(p) => {
            assert_eq!(p.title, "title 0");
            let texts: Vec<_> = p.segment.iter().map(|s| s.text.clone().unwrap()).collect();
            assert_eq!(texts, vec!["a", "b", "c"]);
        }
        _ => panic!("expected an episode"),
    }
    assert_eq!(b.title_index, 1);
    assert!(b.segment.is_empty());
}

#[test]
fn two_bursts_get_sequential_titles() {
    let mut b = PodcastStore::new();
    b.on_segment(seg("x"));
    let first = match b.on_idle() {
        BatchAction::Emit(p) => p,
        _ => panic!("expected an episode"),
    };
    b.on_segment(seg("y"));
    b.on_segment(seg("z"));
    let second = match b.on_idle() {
        BatchAction::Emit(p) => p,
        _ => panic!("expected an episode"),
    };
    assert_eq!(first.title, "title 0");
    assert_eq!(second.title, "title 1");
    assert_eq!(second.segment.len(), 2);
    assert_eq!(IDLE_SECS, 15);
}

#[test]
fn titles_and_decimals() {
    assert_eq!(decimal_string(0), "0");
    assert_eq!(decimal_string(1234567890), "1234567890");
    assert_eq!(decimal_string(u64::MAX), u64::MAX.to_string());
    assert_eq!(title_for(42), "title 42");
}

#[test]
fn failed_title_drops_the_episode() {
    let mut b = PodcastStore::new();
    b.on_segment(seg("a"));
    b.on_segment(seg("b"));
    let p = match b.on_idle() {
        BatchAction::Emit(p) => p,
        _ => panic!("expected an episode"),
    };
    assert!(p.segments_to_send(false).is_empty());
    let mut b = PodcastStore::new();
    b.on_segment(seg("a"));
    let p = match b.on_idle() {
        BatchAction::Emit(p) => p,
        _ => panic!("expected an episode"),
    };
    assert_eq!(p.segments_to_send(true).len(), 1);
}
