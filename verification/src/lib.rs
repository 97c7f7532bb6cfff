//! Message model, OpenAI-format conversion and streaming-completion framing
//! for a chat client, with their contracts proved by Verus.
pub mod messages;
pub mod openai;
pub mod shared_state;
pub mod chat_service;
pub mod components;
pub mod text;
pub mod globals;
pub mod image_utils;
pub mod chat_completions;
