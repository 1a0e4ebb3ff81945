use llm_streaming::asr::AsrResult;
use llm_streaming::llm::{Content, FishTTSRequest, Role, StableLlmRequest};
use llm_streaming::sse::sse_payloads;

#[test]
fn role_names() {
    assert_eq!(Role::System.as_str(), "system");
    assert_eq!(Role::User.to_string(), "user");
    assert_eq!(Role::default(), Role::Assistant);
    assert_eq!(Role::Assistant.as_str(), "assistant");
}

#[test]
fn fish_request_defaults() {
    let r = FishTTSRequest::new("spk".into(), "hello fish".into(), "wav".into());
    assert_eq!(r.reference_id, "spk");
    assert_eq!(r.text, "hello fish");
    assert_eq!(r.format, "wav");
    assert_eq!(r.chunk_length, 200);
    assert_eq!(r.mp3_bitrate, 128);
    assert!(r.normalize);
    assert_eq!(r.latency, "normal");
}

#[test]
fn llm_request_chat_id() {
    let msgs = vec![Content::new(Role::User, "q".into())];
    let r = StableLlmRequest::new(None, msgs);
    assert!(r.stream);
    assert_eq!(r.chat_id, "");
    assert_eq!(r.messages.len(), 1);
    let r = StableLlmRequest::new(Some("c1".into()), Vec::new());
    assert_eq!(r.chat_id, "c1");
}

#[test]
fn asr_lines_with_markers() {
    let r = AsrResult { text: "[00:00 -> 00:01] 你好\r\n[00:01] world] again\nno marker\n\n]x] y".to_string() };
    assert_eq!(r.parse_text(), vec!["你好", "world] again", "y"]);
    let r = AsrResult { text: String::new() };
    assert!(r.parse_text().is_empty());
    let r = AsrResult { text: "a] b\r".to_string() };
    assert_eq!(r.parse_text(), vec!["b\r"]);
}

#[test]
fn stream_block_payloads() {
    let body = "data: {\"a\":1}\n\ndata: {\"b\":2}\n\ndata: [DONE]\n\n";
    assert_eq!(sse_payloads(body), vec!["{\"a\":1}\n\n", "{\"b\":2}\n\n"]);
    assert!(sse_payloads("").is_empty());
    assert_eq!(sse_payloads("partial"), vec!["partial"]);
    assert!(sse_payloads("data: ").is_empty());
}
