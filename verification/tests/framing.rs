use rust_chat::chat_completions::sse::{parse_chunk_payload, process_buffer_payloads, SseBuffer};

#[test]
fn complete_events_are_cut_and_the_rest_is_kept() {
    let mut buf = SseBuffer::new();
    let text = "data: {\"a\":1}\n\ndata: {\"b\":2}\n\n";
    assert!(buf.accepts(text));
    let payloads = buf.feed_text(text);
    assert_eq!(payloads, vec!["{\"a\":1}".to_string()]);
    assert_eq!(buf.pending(), "data: {\"b\":2}\n\n");
    assert_eq!(buf.finish(), vec!["{\"b\":2}".to_string()]);
}

#[test]
fn events_split_over_network_chunks() {
    let mut buf = SseBuffer::new();
    assert_eq!(buf.feed(b"data: {\"x\"").unwrap(), Vec::<String>::new());
    assert_eq!(buf.pending(), "data: {\"x\"");
    assert_eq!(buf.feed(b":1}\n\ndata: {\"y\":2}").unwrap(), vec!["{\"x\":1}".to_string()]);
    assert_eq!(buf.pending(), "data: {\"y\":2}");
    assert_eq!(buf.finish(), vec!["{\"y\":2}".to_string()]);
}

#[test]
fn done_marker_carries_no_payload() {
    let mut buf = SseBuffer::new();
    let payloads = buf.feed_text("data: [DONE]\n\ndata: x");
    assert!(payloads.is_empty());
    assert_eq!(buf.pending(), "data: x");
    assert_eq!(process_buffer_payloads("data: [DONE]\n\n"), Vec::<String>::new());
}

#[test]
fn leading_text_shifts_the_first_event_end() {
    // The pass adds the offset of the first marker to the end of the event.
    let mut buf = SseBuffer::new();
    let payloads = buf.feed_text(": ping\n\ndata: A\n\ndata: B\n\ndata: C");
    assert_eq!(payloads, vec!["A\n\ndata: B".to_string()]);
    assert_eq!(buf.pending(), "data: C");
}

#[test]
fn text_without_marker_stays_in_the_buffer() {
    let mut buf = SseBuffer::new();
    let payloads = buf.feed_text(": keep-alive\n\n");
    assert!(payloads.is_empty());
    assert_eq!(buf.pending(), ": keep-alive\n\n");
}

#[test]
fn event_end_past_the_text_is_refused() {
    let buf = SseBuffer::new();
    assert!(!buf.accepts(": ping ping\n\ndata: x\n\ndata: y"));
    let mut buf = SseBuffer::new();
    assert!(buf.feed(b": ping ping\n\ndata: x\n\ndata: y").is_none());
    assert_eq!(buf.pending(), "");
}

#[test]
fn event_end_inside_a_character_is_refused() {
    let buf = SseBuffer::new();
    assert!(!buf.accepts(": abc\n\ndata: x\n\ndata: \u{e9}\n\n"));
    assert!(buf.accepts(": ab\n\ndata: x\n\ndata: \u{e9}\n\n"));
}

#[test]
fn invalid_utf8_becomes_replacement_characters() {
    let mut buf = SseBuffer::new();
    let payloads = buf.feed(b"data: \xff\n\ndata: ").unwrap();
    assert_eq!(payloads, vec!["\u{fffd}".to_string()]);
    assert_eq!(buf.pending(), "data: ");
}

#[test]
fn chunk_payload_is_trimmed_after_every_leading_marker() {
    assert_eq!(parse_chunk_payload("data:  {\"a\":1} \n\n"), Some("{\"a\":1}".to_string()));
    assert_eq!(parse_chunk_payload("data: data: {}\n"), Some("{}".to_string()));
    assert_eq!(parse_chunk_payload("data: [DONE]\n\n"), None);
    assert_eq!(parse_chunk_payload("event: x\n"), None);
    assert_eq!(parse_chunk_payload("data: \u{3000}[DONE]\u{a0}"), None);
}

#[test]
fn buffer_pieces_are_split_at_markers() {
    assert_eq!(
        process_buffer_payloads("data: {\"a\":1}\n\ndata: \n\ndata: [DONE]"),
        vec!["{\"a\":1}".to_string(), "".to_string()]
    );
    assert_eq!(process_buffer_payloads(""), Vec::<String>::new());
    assert_eq!(process_buffer_payloads("junk"), vec!["junk".to_string()]);
}

#[test]
fn split_feeding_reads_the_same_events() {
    let whole = "data: {\"a\":1}\n\ndata: {\"b\":2}\n\ndata: {\"c\"";
    let mut once = SseBuffer::new();
    let all = once.feed_text(whole);
    for cut in 1..whole.len() {
        if !whole.is_char_boundary(cut) {
            continue;
        }
        let mut twice = SseBuffer::new();
        let mut got = twice.feed_text(&whole[..cut]);
        got.extend(twice.feed_text(&whole[cut..]));
        assert_eq!(got, all, "cut at {}", cut);
        assert_eq!(twice.pending(), once.pending(), "cut at {}", cut);
    }
    assert_eq!(all, vec!["{\"a\":1}".to_string(), "{\"b\":2}".to_string()]);
}

#[test]
fn a_well_formed_stream_is_read_in_full_however_it_is_split() {
    let body = "data: {\"id\":1}\n\ndata:  {\"id\":2} \n\ndata: [DONE]\n\n";
    let expected = vec!["{\"id\":1}".to_string(), "{\"id\":2}".to_string()];
    for first in 0..=body.len() {
        for second in first..=body.len() {
            let mut buf = SseBuffer::new();
            let mut got = Vec::new();
            for part in [&body[..first], &body[first..second], &body[second..]] {
                got.extend(buf.feed(part.as_bytes()).unwrap());
            }
            got.extend(buf.finish());
            assert_eq!(got, expected, "split at {} and {}", first, second);
        }
    }
}

#[test]
fn the_last_event_comes_from_the_end_of_the_stream() {
    let mut buf = SseBuffer::new();
    assert_eq!(buf.feed_text("data: {\"a\":1}\n\ndata: {\"b\":2}\n\n"), vec!["{\"a\":1}".to_string()]);
    assert_eq!(buf.finish(), vec!["{\"b\":2}".to_string()]);
}
