use rust_chat::chat_completions::comp_chunks_collector::{
    completion_response_chunk_collector, extract_content_from_chunks, ChunkCollector,
    CollectedChunk, ToolCallFunctionPart, ToolCallPart,
};
use rust_chat::chat_completions::comp_stream::{
    CompletionResponseChunk, CompletionResponseChunkChoice, CompletionResponseChunkChoiceDelta,
};
use rust_chat::openai::OMessage;

fn choice(
    content: Option<&str>,
    tool_calls: Option<Vec<ToolCallPart>>,
    finish: Option<&str>,
) -> CompletionResponseChunkChoice {
    CompletionResponseChunkChoice {
        index: 0,
        delta: CompletionResponseChunkChoiceDelta {
            role: None,
            content: content.map(|s| s.to_string()),
            refusal: None,
            function_call: None,
            tool_calls,
            audio: None,
        },
        logprobs: None,
        finish_reason: finish.map(|s| s.to_string()),
    }
}

fn chunk(object: &str, choices: Vec<CompletionResponseChunkChoice>) -> CompletionResponseChunk {
    CompletionResponseChunk {
        id: "c1".to_string(),
        object: object.to_string(),
        created: 1,
        model: "m".to_string(),
        system_fingerprint: None,
        choices,
        stream_options: None,
        citations: None,
        tool_res_messages: None,
    }
}

fn part(index: Option<usize>, id: Option<&str>, name: Option<&str>, args: Option<&str>) -> ToolCallPart {
    ToolCallPart {
        id: id.map(|s| s.to_string()),
        index,
        tool_type: id.map(|_| "function".to_string()),
        function: Some(ToolCallFunctionPart {
            name: name.map(|s| s.to_string()),
            arguments: args.map(|s| s.to_string()),
        }),
    }
}

fn contents(chunks: &[CollectedChunk]) -> Vec<String> {
    chunks
        .iter()
        .filter_map(|c| match c {
            CollectedChunk::ContentDelta { content } => Some(content.clone()),
            _ => None,
        })
        .collect()
}

#[test]
fn content_deltas_are_yielded_in_order() {
    let chunks = vec![
        chunk("chat.completion.chunk", vec![choice(Some("Hel"), None, None)]),
        chunk("chat.completion.chunk", vec![choice(Some(""), None, None)]),
        chunk("chat.completion.chunk", vec![choice(Some("lo"), None, None), choice(None, None, Some("stop"))]),
        chunk("chat.completion.chunk", vec![]),
    ];
    let out = completion_response_chunk_collector(chunks);
    assert_eq!(contents(&out), vec!["Hel".to_string(), "lo".to_string()]);
    assert_eq!(out.len(), 2);
    assert_eq!(extract_content_from_chunks(&out), "Hello");
}

#[test]
fn tool_calls_are_assembled_from_their_parts() {
    let mut collector = ChunkCollector::new();
    let first = collector.step(chunk(
        "chat.completion.chunk",
        vec![choice(None, Some(vec![part(Some(0), Some("call_1"), Some("get_weather"), Some("{\"ci"))]), None)],
    ));
    assert!(first.is_empty());
    let second = collector.step(chunk(
        "chat.completion.chunk",
        vec![choice(None, Some(vec![part(Some(0), None, None, Some("ty\":1}"))]), Some("tool_calls"))],
    ));
    assert_eq!(second.len(), 1);
    match &second[0] {
        CollectedChunk::ToolCall { content } => {
            assert_eq!(content.id.as_deref(), Some("call_1"));
            assert_eq!(content.tool_type.as_deref(), Some("function"));
            assert_eq!(content.function.name.as_deref(), Some("get_weather"));
            assert_eq!(content.function.arguments, "{\"city\":1}");
        }
        _ => panic!("expected a tool call"),
    }
    let third = collector.step(chunk("chat.completion.chunk", vec![choice(None, None, Some("tool_calls"))]));
    assert!(third.is_empty());
}

#[test]
fn parts_without_an_index_do_not_start_a_call() {
    let out = completion_response_chunk_collector(vec![chunk(
        "chat.completion.chunk",
        vec![choice(None, Some(vec![part(None, Some("x"), Some("f"), Some("{}"))]), Some("tool_calls"))],
    )]);
    assert!(out.is_empty());
}

#[test]
fn tool_results_are_passed_on() {
    let mut c = chunk("tool_res_messages", vec![choice(Some("ignored"), None, None)]);
    c.tool_res_messages = Some(vec![OMessage::new("tool".to_string(), "42".to_string())]);
    let out = completion_response_chunk_collector(vec![c, chunk("tool_res_messages", vec![])]);
    assert_eq!(out.len(), 1);
    match &out[0] {
        CollectedChunk::ToolResMessages { content } => {
            assert_eq!(content.len(), 1);
            assert_eq!(content[0].role, "tool");
        }
        _ => panic!("expected tool results"),
    }
    assert_eq!(extract_content_from_chunks(&out), "");
}

#[test]
fn orphan_parts_change_nothing() {
    let with_orphans = completion_response_chunk_collector(vec![
        chunk("chat.completion.chunk", vec![choice(Some("a"), Some(vec![part(None, Some("x"), Some("f"), Some("{}"))]), None)]),
        chunk("chat.completion.chunk", vec![choice(None, Some(vec![part(Some(0), Some("c"), Some("g"), Some("[1]"))]), Some("tool_calls"))]),
    ]);
    let without = completion_response_chunk_collector(vec![
        chunk("chat.completion.chunk", vec![choice(Some("a"), Some(vec![]), None)]),
        chunk("chat.completion.chunk", vec![choice(None, Some(vec![part(Some(0), Some("c"), Some("g"), Some("[1]"))]), Some("tool_calls"))]),
    ]);
    assert_eq!(with_orphans.len(), 2);
    assert_eq!(without.len(), 2);
    for out in [&with_orphans, &without] {
        match &out[1] {
            CollectedChunk::ToolCall { content } => {
                assert_eq!(content.id.as_deref(), Some("c"));
                assert_eq!(content.function.name.as_deref(), Some("g"));
                assert_eq!(content.function.arguments, "[1]");
            }
            _ => panic!("expected a tool call"),
        }
    }
}

#[test]
fn content_extracted_in_pieces_joins_to_the_whole() {
    let a = vec![CollectedChunk::ContentDelta { content: "ab".to_string() }];
    let b = vec![
        CollectedChunk::ToolResMessages { content: vec![] },
        CollectedChunk::ContentDelta { content: "c".to_string() },
    ];
    let mut all = completion_response_chunk_collector(vec![]);
    assert!(all.is_empty());
    all.extend(a.iter().map(|c| match c {
        CollectedChunk::ContentDelta { content } => CollectedChunk::ContentDelta { content: content.clone() },
        _ => unreachable!(),
    }));
    all.extend(b.into_iter());
    assert_eq!(format!("{}{}", extract_content_from_chunks(&a), "c"), extract_content_from_chunks(&all));
}
