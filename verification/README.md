# rust_chat

A chat client for an OpenAI-compatible completion backend.

- `src/` is the library, verified with Verus: the message model and its
  conversion to and from the OpenAI shape (`messages`, `openai`,
  `image_utils`), the framing of the server-sent-event body of a streamed
  completion (`chat_completions::sse`), the collector that turns response
  chunks into content deltas, tool calls and tool results
  (`chat_completions::comp_chunks_collector`), the request body
  (`chat_completions::comp_post`), and the state changes of the chat screen
  (`chat_service`, `shared_state`, `components`).
- `app/` is the Dioxus front end: HTTP requests, JSON (de)serialisation,
  async streams and the components.
- `tests/` exercises the library on concrete values.
