use llm_streaming::chunker::{TextChunker, CHUNK_SIZE};

fn run(frags: &[&str]) -> (Vec<String>, Option<String>) {
    let mut c = TextChunker::new();
    let mut chunks = Vec::new();
    for f in frags {
        if let Some(x) = c.push_str(f) {
            chunks.push(x);
        }
    }
    let last = c.return_string_buffer();
    (chunks, last)
}

#[test]
fn reply_fragments_combine_into_one_chunk() {
    let (chunks, last) = run(&["Hello! ", "How are you?"]);
    assert!(chunks.is_empty());
    assert_eq!(last, Some("Hello! How are you?".to_string()));
}

#[test]
fn newline_flushes_short_buffer() {
    let mut c = TextChunker::new();
    assert_eq!(c.push_str("Hi.\nrest of it"), Some("Hi.\n".to_string()));
    assert_eq!(c.string_buffer, "rest of it");
}

#[test]
fn long_buffer_flushes_at_boundary() {
    let mut c = TextChunker::new();
    let first = "a".repeat(CHUNK_SIZE);
    assert_eq!(c.push_str(&first), None);
    assert_eq!(c.push_str("b. tail! more"), Some(format!("{}b.", first)));
    // the remainder is held unscanned until more arrives
    assert_eq!(c.string_buffer, " tail! more");
}

#[test]
fn exactly_threshold_is_not_flushed() {
    let mut c = TextChunker::new();
    let s = format!("{}.", "a".repeat(CHUNK_SIZE - 1));
    assert_eq!(c.push_str(&s), None);
    assert_eq!(c.string_buffer.len(), CHUNK_SIZE);
}

#[test]
fn full_width_terminators_split() {
    let mut c = TextChunker::new();
    // eighteen CJK characters are 54 bytes
    let s = "你好你好你好你好你好你好你好你好你好。然后";
    assert_eq!(c.push_str(s), Some("你好你好你好你好你好你好你好你好你好。".to_string()));
    assert_eq!(c.string_buffer, "然后");
}

#[test]
fn fragments_without_boundary_are_held() {
    let mut c = TextChunker::new();
    assert_eq!(c.push_str("word"), None);
    assert_eq!(c.push_str(" another"), None);
    assert_eq!(c.string_buffer, "word another");
}

#[test]
fn chunks_reassemble_the_input() {
    let text = "First sentence is here and it is long enough to pass fifty bytes. Second!\nThird; fourth? 第五句。end";
    let pieces: Vec<String> = text.chars().collect::<Vec<_>>().chunks(7).map(|c| c.iter().collect()).collect();
    let refs: Vec<&str> = pieces.iter().map(|s| s.as_str()).collect();
    let (chunks, last) = run(&refs);
    assert!(!chunks.is_empty());
    for c in &chunks {
        assert!(c.len() > CHUNK_SIZE || c.ends_with('\n'));
    }
    let mut all = chunks.concat();
    all.push_str(&last.unwrap_or_default());
    assert_eq!(all, text);
}

#[test]
fn stopped_after_end_of_input() {
    let mut c = TextChunker::new();
    assert!(!c.is_stopped());
    assert_eq!(c.return_string_buffer(), None);
    assert!(c.is_stopped());
}

#[test]
fn nothing_after_end_of_input() {
    let mut c = TextChunker::new();
    assert_eq!(c.next_from(Some("Tail without end")), None);
    assert_eq!(c.next_from(None), Some("Tail without end".to_string()));
    assert!(c.is_stopped());
    assert_eq!(c.next_from(Some("more.\n")), None);
    assert_eq!(c.next_from(None), None);
    assert!(c.string_buffer.is_empty());
}
