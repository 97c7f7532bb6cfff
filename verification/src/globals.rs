//! The backend that the client talks to.
use vstd::prelude::*;

use crate::text::concat;

verus! {

/// The base URL of the completion backend.
pub const BACKEND_URL: &'static str = "https://llmproxy.xi.valerii.cc/v1";

/// The URL of the backend's chat completions endpoint.
pub fn chat_completions_url() -> (res: String)
    ensures
        res@ == BACKEND_URL@ + "/chat/completions"@,
{
    concat(BACKEND_URL, "/chat/completions")
}

/// The URL of the backend's model list.
pub fn models_url() -> (res: String)
    ensures
        res@ == BACKEND_URL@ + "/models"@,
{
    concat(BACKEND_URL, "/models")
}

/// The value of the `Authorization` header for an API key.
pub fn bearer_authorization(api_key: &str) -> (res: String)
    ensures
        res@ == "Bearer "@ + api_key@,
{
    concat("Bearer ", api_key)
}

} // verus!
