use rust_chat::chat_completions::comp_chunks_collector::CollectedChunk;
use rust_chat::chat_completions::comp_post::CompletionRestreamerPost;
use rust_chat::chat_service::{
    begin_exchange, completion_history, set_message_content, should_send, show_reply_progress,
    stream_error_content, SendMessageRequest,
};
use rust_chat::components::input_box_texts;
use rust_chat::globals::{bearer_authorization, chat_completions_url, models_url};
use rust_chat::openai::{OMessage, OMessageContent};
use rust_chat::shared_state::{is_active_model, CompletionModel, CompletionModelState, Message, SideBarState};

fn model(id: &str) -> CompletionModel {
    CompletionModel { id: id.to_string(), object: "model".to_string(), created_bits: 0, owned_by: "o".to_string() }
}

#[test]
fn blank_messages_are_not_sent() {
    assert!(!should_send(""));
    assert!(!should_send(" \n\t\u{3000}"));
    assert!(should_send(" hi "));
    let r = SendMessageRequest { content: "x".to_string() };
    assert_eq!(r.clone().content, "x");
}

#[test]
fn an_exchange_adds_the_user_message_and_an_empty_reply() {
    let mut messages = vec![Message { role: "system".to_string(), content: "s".to_string() }];
    let index = begin_exchange(&mut messages, "hello".to_string());
    assert_eq!(index, 2);
    assert_eq!(messages[1], Message { role: "user".to_string(), content: "hello".to_string() });
    assert_eq!(messages[2], Message { role: "assistant".to_string(), content: String::new() });
    let history = completion_history(&messages);
    assert_eq!(history.len(), 2);
    assert_eq!(history[0].role, "user");
    assert_eq!(history[1].role, "assistant");
    match &history[0].content {
        OMessageContent::ContentString(s) => assert_eq!(s, "hello"),
        _ => panic!("expected a string"),
    }
}

#[test]
fn the_reply_shows_the_content_received_so_far() {
    let mut messages = vec![
        Message { role: "user".to_string(), content: "q".to_string() },
        Message { role: "assistant".to_string(), content: String::new() },
    ];
    let received = vec![
        CollectedChunk::ContentDelta { content: "An".to_string() },
        CollectedChunk::ToolResMessages { content: vec![] },
        CollectedChunk::ContentDelta { content: "swer".to_string() },
    ];
    show_reply_progress(&mut messages, 1, &received);
    assert_eq!(messages[1].content, "Answer");
    assert_eq!(messages[1].role, "assistant");
    show_reply_progress(&mut messages, 5, &received);
    assert_eq!(messages.len(), 2);
    set_message_content(&mut messages, 1, stream_error_content("Server error: down"));
    assert_eq!(messages[1].content, "Error: Server error: down");
}

#[test]
fn streaming_request_leaves_options_to_the_backend() {
    let post = CompletionRestreamerPost::streaming("gpt".to_string(), vec![OMessage::new("user".to_string(), "hi".to_string())]);
    assert!(post.stream);
    assert_eq!(post.model, "gpt");
    assert_eq!(post.messages.len(), 1);
    assert!(post.tools.is_none() && post.max_tokens.is_none() && post.temperature_bits.is_none());
}

#[test]
fn backend_urls_and_header() {
    assert_eq!(chat_completions_url(), "https://llmproxy.xi.valerii.cc/v1/chat/completions");
    assert_eq!(models_url(), "https://llmproxy.xi.valerii.cc/v1/models");
    assert_eq!(bearer_authorization("k"), "Bearer k");
}

#[test]
fn model_state_follows_fetch_results() {
    let mut state = CompletionModelState::default();
    assert!(state.selector_disabled());
    state.is_loading = true;
    state.apply_fetch_result(Err("down".to_string()));
    assert!(!state.is_loading);
    assert_eq!(state.error.as_deref(), Some("down"));
    state.apply_fetch_result(Ok(vec![model("a"), model("b"), model("b")]));
    assert_eq!(state.models.len(), 3);
    assert_eq!(state.error.as_deref(), Some("down"));
    assert!(!state.selector_disabled());
    assert_eq!(state.find_model("b").unwrap().id, "b");
    assert!(state.find_model("c").is_none());
    assert!(is_active_model(&Some(model("a")), &model("a")));
    assert!(!is_active_model(&None, &model("a")));
}

#[test]
fn side_bar_and_input_box_texts() {
    let mut s = SideBarState::default();
    assert!(s.is_expanded);
    assert_eq!(s.content_class(), "");
    assert_eq!(s.toggle_style(), "expanded");
    s.toggle();
    assert!(!s.is_expanded);
    assert_eq!(s.content_class(), "sidebar-collapsed");
    assert_eq!(s.toggle_style(), "collapsed");
    assert_eq!(input_box_texts(true), ("textarea-box-new-chat", "textarea-wrapper-new-chat", "How can I help you?"));
    assert_eq!(input_box_texts(false), ("textarea-box", "textarea-wrapper", "Type your message..."));
}

