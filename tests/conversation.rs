use std::collections::VecDeque;
use std::sync::Arc;
use llm_streaming::config::{FishTTS, StableTTS, TTSConfig};
use llm_streaming::conversation::{bearer_token, parse_comments, Conversation, Downstream, LlmAgent};
use llm_streaming::llm::{Content, Role};

#[test]
fn comments_become_one_user_message() {
    let mut cs = VecDeque::new();
    cs.push_back(("alice".to_string(), "hi".to_string()));
    cs.push_back(("bob".to_string(), "yo".to_string()));
    assert_eq!(parse_comments(cs), "以下是用户的评论：\nalice: hi\nbob: yo\n");
    assert_eq!(parse_comments(VecDeque::new()), "以下是用户的评论：\n");
}

#[test]
fn window_length_after_alternating_turns() {
    let h = 2;
    let mut conv = Conversation::new(vec![Content::new(Role::System, "sys".into())], VecDeque::new(), h);
    let expected = [1, 2, 3, 4, 3, 4, 3, 4];
    for (n, want) in expected.iter().enumerate() {
        if n % 2 == 0 {
            let mut cs = VecDeque::new();
            cs.push_back((format!("u{}", n), "m".to_string()));
            let prompts = conv.add_comments(cs);
            assert_eq!(prompts.len(), 1 + conv.dynamic_prompts.len());
            assert_eq!(prompts[0].role, Role::System);
        } else {
            conv.add_reply(format!("reply {}", n));
        }
        assert_eq!(conv.dynamic_prompts.len(), *want);
        assert_eq!(conv.dynamic_prompts[0].role, Role::User);
    }
    assert!(conv.dynamic_prompts[0].message.contains("u4"));
}

#[test]
fn zero_history_keeps_no_turns() {
    let mut conv = Conversation::new(Vec::new(), VecDeque::new(), 0);
    let prompts = conv.add_comments(VecDeque::new());
    assert!(prompts.is_empty());
    assert!(conv.dynamic_prompts.is_empty());
}

#[test]
fn failed_reply_appends_nothing() {
    let mut conv = Conversation::new(Vec::new(), VecDeque::new(), 3);
    conv.add_comments(VecDeque::new());
    conv.add_comments(VecDeque::new());
    assert_eq!(conv.dynamic_prompts.len(), 2);
    assert!(conv.dynamic_prompts.iter().all(|c| c.role == Role::User));
}

#[test]
fn bearer_header() {
    assert_eq!(bearer_token(&Some("k1".to_string())), "Bearer k1");
    assert_eq!(bearer_token(&None), "");
}

fn agent(tts: TTSConfig) -> LlmAgent {
    LlmAgent {
        downstream: Arc::new(Downstream { update_title_url: "u".into(), segment_url: "s".into() }),
        tts_config: tts,
    }
}

#[test]
fn tts_failure_still_sends_text() {
    let a = agent(TTSConfig::Stable(StableTTS { base_url: "b".into(), speaker: "sp".into(), vtb_name: "hutao".into() }));
    let s = a.chunk_segment("Hello! How are you?".into(), None);
    assert_eq!(s.vtb_name, "hutao");
    assert_eq!(s.text.as_deref(), Some("Hello! How are you?"));
    assert!(s.motion.is_none());
    assert!(s.voice.is_none());
}

#[test]
fn tts_success_carries_audio() {
    let a = agent(TTSConfig::Fish(FishTTS { api_key: "k".into(), speaker: "sp".into(), vtb_name: "fishy".into() }));
    let s = a.chunk_segment("x".into(), Some(vec![1, 2, 3]));
    assert_eq!(s.vtb_name, "fishy");
    assert_eq!(s.voice, Some(vec![1, 2, 3]));
}
