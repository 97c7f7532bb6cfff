//! Streaming chat completions: request body, event framing, response chunks
//! and the collector that turns chunks into content and tool calls.
pub mod comp_chunks_collector;
pub mod comp_post;
pub mod comp_stream;
pub mod sse;
