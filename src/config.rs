use std::collections::VecDeque;
use vstd::prelude::*;
use crate::llm::Content;

verus! {

/// The language model endpoint and the prompt history.
#[derive(Debug, Clone)]
pub struct LLMConfig {
    pub llm_chat_url: String,
    pub api_key: Option<String>,
    pub sys_prompts: Vec<Content>,
    pub dynamic_prompts: VecDeque<Content>,
    pub history: usize,
}

/// The hosted speech synthesis service.
#[derive(Debug, Clone)]
pub struct FishTTS {
    pub api_key: String,
    pub speaker: String,
    pub vtb_name: String,
}

/// A self-hosted speech synthesis service.
#[derive(Debug, Clone)]
pub struct StableTTS {
    pub base_url: String,
    pub speaker: String,
    pub vtb_name: String,
}

#[derive(Debug, Clone)]
pub enum TTSConfig {
    Stable(StableTTS),
    Fish(FishTTS),
}

impl TTSConfig {
    pub open spec fn spec_vtb_name(&self) -> Seq<char> {
        match self {
            TTSConfig::Stable(s) => s.vtb_name@,
            TTSConfig::Fish(f) => f.vtb_name@,
        }
    }

    /// The speaker id that segments voiced by this service carry.
    pub fn vtb_name(&self) -> (r: String)
        ensures
            r@ == self.spec_vtb_name(),
    {
        match self {
            TTSConfig::Stable(s) => s.vtb_name.clone(),
            TTSConfig::Fish(f) => f.vtb_name.clone(),
        }
    }
}

#[derive(Debug, Clone)]
pub enum StreamPlatFormConfig {
    Bilibili(BilibiliConfig),
    Restream(RestreamConfig),
}

impl StreamPlatFormConfig {
    /// The capacity of the comment buffer for this platform.
    pub fn max_comment(&self) -> (r: usize)
        ensures
            r == match self {
                StreamPlatFormConfig::Bilibili(b) => b.max_comment,
                StreamPlatFormConfig::Restream(r) => r.max_comment,
            },
    {
        match self {
            StreamPlatFormConfig::Bilibili(b) => b.max_comment,
            StreamPlatFormConfig::Restream(r) => r.max_comment,
        }
    }
}

#[derive(Debug, Clone)]
pub struct BilibiliConfig {
    pub room_id: u64,
    pub max_retry: u32,
    pub token_path: String,
    pub max_comment: usize,
}

#[derive(Debug, Clone)]
pub struct RestreamConfig {
    pub url: String,
    pub max_comment: usize,
}

#[derive(Debug, Clone)]
pub struct DownstreamConfig {
    pub update_title_url: String,
    pub segment_url: String,
}

#[derive(Debug, Clone)]
pub struct Config {
    pub listen: String,
    pub llm: LLMConfig,
    pub tts: TTSConfig,
    pub platform: StreamPlatFormConfig,
    pub downstream: DownstreamConfig,
}

} // verus!
