//! Orchestration core of a live-stream chat responder: the comment
//! aggregator, the streaming text chunker, the episode batcher and the
//! conversation history kept by the pipeline controller.

pub mod chunker;
pub mod llm;
pub mod aggregator;
pub mod podcast;
pub mod config;
pub mod conversation;
pub mod asr;
pub mod sse;
