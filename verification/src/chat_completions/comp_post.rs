//! The body of a chat completion request.
use vstd::prelude::*;

use crate::openai::OMessage;

verus! {

/// The body of a chat completion request. The sampling parameters that the
/// backend takes as 32-bit floats are held by their IEEE-754 bit patterns.
#[derive(Debug)]
pub struct CompletionRestreamerPost {
    pub model: String,
    pub messages: Vec<OMessage>,
    pub tools: Option<serde_json::Value>,
    pub tool_choice: Option<bool>,
    pub stream: bool,
    pub max_tokens: Option<u32>,
    pub temperature_bits: Option<u32>,
    pub n: Option<i16>,
    pub top_p_bits: Option<u32>,
    pub top_n_bits: Option<u32>,
    pub stop: Option<Vec<String>>,
}

impl CompletionRestreamerPost {
    /// The request for a streamed completion of `messages` by `model`, with
    /// every optional parameter left to the backend.
    pub fn streaming(model: String, messages: Vec<OMessage>) -> (res: Self)
        ensures
            res.model == model,
            res.messages == messages,
            res.stream,
            res.tools.is_none(),
            res.tool_choice.is_none(),
            res.max_tokens.is_none(),
            res.temperature_bits.is_none(),
            res.n.is_none(),
            res.top_p_bits.is_none(),
            res.top_n_bits.is_none(),
            res.stop.is_none(),
    {
        CompletionRestreamerPost {
            model,
            messages,
            tools: None,
            tool_choice: None,
            stream: true,
            max_tokens: None,
            temperature_bits: None,
            n: None,
            top_p_bits: None,
            top_n_bits: None,
            stop: None,
        }
    }
}

} // verus!
