use rust_chat::image_utils::{image_bytes_from_b64string, parse_image_b64_from_image_url_openai};
use rust_chat::messages::{
    any_messages2internal, is_empty_string, is_none, messages2openai, AnyMessage,
    ContentArrayItem, Message, MessageContent, ToolCall, ToolFunction,
};
use rust_chat::openai::{
    default_detail, OContentArrayItem, OContentArrayItemImage, OContentArrayItemImageUrl,
    OContentArrayItemText, OMessage, OMessageContent,
};

fn item(t: &str, c: &str) -> ContentArrayItem {
    ContentArrayItem { m_type: t.to_string(), m_content: c.to_string() }
}

fn image_item(url: &str, detail: &str) -> OContentArrayItem {
    OContentArrayItem::OContentArrayItemImage(OContentArrayItemImage {
        content_type: "image_url".to_string(),
        image_url: OContentArrayItemImageUrl { url: url.to_string(), detail: detail.to_string() },
    })
}

fn tool_call() -> ToolCall {
    ToolCall {
        id: "call_1".to_string(),
        function: ToolFunction { arguments: "{}".to_string(), name: "f".to_string() },
        tool_type: "function".to_string(),
    }
}

#[test]
fn item_types_are_checked() {
    let ok = ContentArrayItem::new("text".to_string(), "hi".to_string()).unwrap();
    assert_eq!(ok.m_type, "text");
    assert_eq!(ok.m_content, "hi");
    let img = ContentArrayItem::new("image/svg+xml".to_string(), "not base64".to_string()).unwrap();
    assert_eq!(img.m_type, "image/svg+xml");
    let err = ContentArrayItem::new("audio/wav".to_string(), "x".to_string()).unwrap_err();
    assert_eq!(err, "ContentArrayItem::new() received invalid type: audio/wav");
    assert!(ContentArrayItem::new("Text".to_string(), "x".to_string()).is_err());
}

#[test]
fn helpers_for_skipped_fields() {
    assert!(is_none::<u8>(&None));
    assert!(!is_none(&Some(1)));
    assert!(is_empty_string(&String::new()));
    assert!(!is_empty_string(&" ".to_string()));
    assert_eq!(default_detail(), "high");
}

#[test]
fn image_data_urls_are_parsed() {
    assert_eq!(
        parse_image_b64_from_image_url_openai("data:image/png;base64,iVBORw0KGgo="),
        Some(("image/png".to_string(), "base64".to_string(), "iVBORw0KGgo=".to_string()))
    );
    assert_eq!(
        parse_image_b64_from_image_url_openai("see data:image/jpg;base64,abc+/= here"),
        Some(("image/jpg".to_string(), "base64".to_string(), "abc+/=".to_string()))
    );
    assert_eq!(
        parse_image_b64_from_image_url_openai("data:image/png;base64,!!data:image/gif;base64,Zm9v"),
        Some(("image/gif".to_string(), "base64".to_string(), "Zm9v".to_string()))
    );
    assert_eq!(parse_image_b64_from_image_url_openai("data:image/svg;base64,abc"), None);
    assert_eq!(parse_image_b64_from_image_url_openai("data:image/webp;base64,"), None);
    assert_eq!(parse_image_b64_from_image_url_openai("https://example.com/a.png"), None);
}

#[test]
fn text_items_convert_both_ways() {
    let o = OContentArrayItem::from_internal(item("text", "hello")).unwrap();
    match &o {
        OContentArrayItem::OContentArrayItemText(t) => {
            assert_eq!(t.content_type, "text");
            assert_eq!(t.text, "hello");
        }
        _ => panic!("expected a text item"),
    }
    let back = o.to_internal().unwrap();
    assert_eq!((back.m_type.as_str(), back.m_content.as_str()), ("text", "hello"));
    let t = OContentArrayItemText::from_internal(item("image/png", "abc"));
    assert_eq!(t.content_type, "text");
    assert_eq!(t.text, "abc");
}

#[test]
fn image_items_become_data_urls_and_back() {
    let o = OContentArrayItemImage::from_internal(item("image/jpeg", "QUJD"));
    assert_eq!(o.content_type, "image_url");
    assert_eq!(o.image_url.url, "data:image/jpeg;base64,QUJD");
    assert_eq!(o.image_url.detail, "high");
    let back = o.to_internal().unwrap();
    assert_eq!((back.m_type.as_str(), back.m_content.as_str()), ("image/jpeg", "QUJD"));
}

#[test]
fn unparsable_image_urls_and_types_fail() {
    let err = image_item("https://example.com/a.png", "low").to_internal().unwrap_err();
    assert_eq!(err, "Failed to parse image URL: https://example.com/a.png");
    let err = OContentArrayItem::from_internal(item("video/mp4", "x")).unwrap_err();
    assert_eq!(err, "Unsupported content type: video/mp4");
    let bad_text = OContentArrayItem::OContentArrayItemText(OContentArrayItemText {
        content_type: "markdown".to_string(),
        text: "x".to_string(),
    });
    assert_eq!(
        bad_text.to_internal().unwrap_err(),
        "ContentArrayItem::new() received invalid type: markdown"
    );
}

#[test]
fn content_arrays_stop_at_the_first_error() {
    let c = OMessageContent::ContentArray(vec![
        image_item("data:image/png;base64,AA==", "high"),
        image_item("nope", "high"),
        image_item("nope either", "high"),
    ]);
    assert_eq!(c.to_internal().unwrap_err(), "Failed to parse image URL: nope");
    let c = MessageContent::ContentArray(vec![item("text", "a"), item("bin", "b"), item("x", "c")]);
    assert_eq!(OMessageContent::from_internal(c).unwrap_err(), "Unsupported content type: bin");
    match OMessageContent::ContentString("plain".to_string()).to_internal().unwrap() {
        MessageContent::ContentString(s) => assert_eq!(s, "plain"),
        _ => panic!("expected a string"),
    }
}

#[test]
fn messages_round_trip_through_the_openai_shape() {
    let m = Message {
        role: "user".to_string(),
        content: MessageContent::ContentArray(vec![
            item("text", "what is this?"),
            item("image/webp", "UklGRg=="),
        ]),
        tool_calls: Some(vec![tool_call()]),
        tool_call_id: "t1".to_string(),
    };
    let om = OMessage::from_internal(m.clone()).unwrap();
    assert_eq!(om.role, "user");
    assert_eq!(om.tool_call_id, "t1");
    let back = om.to_internal().unwrap();
    assert_eq!(back.role, "user");
    assert_eq!(back.tool_call_id, "t1");
    let calls = back.tool_calls.unwrap();
    assert_eq!(calls.len(), 1);
    assert_eq!(calls[0].id, "call_1");
    assert_eq!(calls[0].function.name, "f");
    match back.content {
        MessageContent::ContentArray(items) => {
            assert_eq!(items.len(), 2);
            assert_eq!((items[0].m_type.as_str(), items[0].m_content.as_str()), ("text", "what is this?"));
            assert_eq!((items[1].m_type.as_str(), items[1].m_content.as_str()), ("image/webp", "UklGRg=="));
        }
        _ => panic!("expected an array"),
    }
}

#[test]
fn new_message_has_plain_content() {
    let m = OMessage::new("assistant".to_string(), "hi".to_string());
    assert_eq!(m.role, "assistant");
    assert!(m.tool_calls.is_none());
    assert_eq!(m.tool_call_id, "");
    match m.content {
        OMessageContent::ContentString(s) => assert_eq!(s, "hi"),
        _ => panic!("expected a string"),
    }
}

#[test]
fn message_lists_convert_or_report_the_first_error() {
    let ok = messages2openai(vec![
        Message {
            role: "user".to_string(),
            content: MessageContent::ContentString("a".to_string()),
            tool_calls: None,
            tool_call_id: String::new(),
        },
    ])
    .unwrap();
    assert_eq!(ok.len(), 1);
    let err = messages2openai(vec![
        Message {
            role: "user".to_string(),
            content: MessageContent::ContentArray(vec![item("x/y", "a")]),
            tool_calls: None,
            tool_call_id: String::new(),
        },
        Message {
            role: "user".to_string(),
            content: MessageContent::ContentArray(vec![item("z/w", "a")]),
            tool_calls: None,
            tool_call_id: String::new(),
        },
    ])
    .unwrap_err();
    assert_eq!(err, "Unsupported content type: x/y");

    let any = vec![
        AnyMessage::OMessage(OMessage::new("system".to_string(), "be brief".to_string())),
        AnyMessage::Message(Message {
            role: "user".to_string(),
            content: MessageContent::ContentString("hi".to_string()),
            tool_calls: None,
            tool_call_id: String::new(),
        }),
    ];
    let internal = any_messages2internal(any).unwrap();
    assert_eq!(internal.len(), 2);
    assert_eq!(internal[0].role, "system");
    assert_eq!(internal[1].role, "user");
    let bad = vec![AnyMessage::OMessage(OMessage {
        role: "user".to_string(),
        content: OMessageContent::ContentArray(vec![image_item("x", "high")]),
        tool_calls: None,
        tool_call_id: String::new(),
    })];
    assert_eq!(any_messages2internal(bad).unwrap_err(), "Failed to parse image URL: x");
}

#[test]
fn canonical_openai_messages_round_trip() {
    let om = OMessage {
        role: "user".to_string(),
        content: OMessageContent::ContentArray(vec![
            OContentArrayItem::OContentArrayItemText(OContentArrayItemText {
                content_type: "text".to_string(),
                text: "look".to_string(),
            }),
            image_item("data:image/gif;base64,R0lGOD==", "high"),
        ]),
        tool_calls: None,
        tool_call_id: String::new(),
    };
    let back = OMessage::from_internal(om.to_internal().unwrap()).unwrap();
    match back.content {
        OMessageContent::ContentArray(items) => {
            assert_eq!(items.len(), 2);
            match &items[1] {
                OContentArrayItem::OContentArrayItemImage(i) => {
                    assert_eq!(i.image_url.url, "data:image/gif;base64,R0lGOD==");
                    assert_eq!(i.image_url.detail, "high");
                    assert_eq!(i.content_type, "image_url");
                }
                _ => panic!("expected an image"),
            }
        }
        _ => panic!("expected an array"),
    }
    // A URL with surrounding text or another detail is not canonical: the
    // trip keeps only the data URL and the default detail.
    let o = image_item("x data:image/png;base64,AA== y", "low");
    let again = OContentArrayItem::from_internal(o.to_internal().unwrap()).unwrap();
    match again {
        OContentArrayItem::OContentArrayItemImage(i) => {
            assert_eq!(i.image_url.url, "data:image/png;base64,AA==");
            assert_eq!(i.image_url.detail, "high");
        }
        _ => panic!("expected an image"),
    }
}

#[test]
fn base64_image_data_is_decoded() {
    assert_eq!(image_bytes_from_b64string("QUJD").unwrap(), b"ABC".to_vec());
    assert_eq!(image_bytes_from_b64string("").unwrap(), Vec::<u8>::new());
    assert_eq!(image_bytes_from_b64string("not base64!").unwrap_err(), "base64 decode failed");
    // Image items are accepted by their type, whatever their data decodes to.
    assert!(ContentArrayItem::new("image/png".to_string(), "not base64!".to_string()).is_ok());
}

#[test]
fn openai_items_default_to_empty_fields() {
    let t = OContentArrayItemText::default();
    assert_eq!((t.content_type.as_str(), t.text.as_str()), ("", ""));
    let u = OContentArrayItemImageUrl::default();
    assert_eq!((u.url.as_str(), u.detail.as_str()), ("", ""));
    let i = OContentArrayItemImage::default();
    assert_eq!((i.content_type.as_str(), i.image_url.url.as_str(), i.image_url.detail.as_str()), ("", "", ""));
}
