//! The chunks of a streaming completion response.
use vstd::prelude::*;

use crate::chat_completions::comp_chunks_collector::ToolCallPart;
use crate::openai::OMessage;

verus! {

/// `serde_json::Value`: JSON that a chunk or a request carries and that the
/// client passes along without reading it.
#[verifier::external_type_specification]
#[verifier::external_body]
pub struct ExJsonValue(serde_json::Value);

/// Stream options that a chunk may echo.
#[derive(Debug)]
pub struct CompletionResponseChunkStreamOptions {
    pub include_usage: bool,
}

/// The delta of one choice. `tool_calls` holds the elements of the delta's
/// `tool_calls` array that have the shape of a tool call part, in order, and
/// is `None` when the field is missing or not an array.
#[derive(Debug)]
pub struct CompletionResponseChunkChoiceDelta {
    pub role: Option<String>,
    pub content: Option<String>,
    pub refusal: Option<serde_json::Value>,
    pub function_call: Option<serde_json::Value>,
    pub tool_calls: Option<Vec<ToolCallPart>>,
    pub audio: Option<serde_json::Value>,
}

/// One choice of a chunk.
#[derive(Debug)]
pub struct CompletionResponseChunkChoice {
    pub index: usize,
    pub delta: CompletionResponseChunkChoiceDelta,
    pub logprobs: Option<serde_json::Value>,
    pub finish_reason: Option<String>,
}

/// One chunk of a streaming completion.
#[derive(Debug)]
pub struct CompletionResponseChunk {
    pub id: String,
    pub object: String,
    pub created: u64,
    pub model: String,
    pub system_fingerprint: Option<String>,
    pub choices: Vec<CompletionResponseChunkChoice>,
    pub stream_options: Option<CompletionResponseChunkStreamOptions>,
    pub citations: Option<serde_json::Value>,
    pub tool_res_messages: Option<Vec<OMessage>>,
}

} // verus!
