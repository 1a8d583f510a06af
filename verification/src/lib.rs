//! Core of a floating desktop chat client for a local LLM inference
//! server: conversation state and persistence, the storage codec, the
//! streaming-response decoder, and the request retry policy.

pub mod api;
pub mod codec;
pub mod config;
pub mod conversation;
pub mod errors;
pub mod guardian;
pub mod json;
pub mod logger;
pub mod models;
pub mod retry;
pub mod storage;
pub mod text;

pub use conversation::{Conversation, Message, MessageRole};
pub use errors::ClientError;
pub use api::OllamaClient;
