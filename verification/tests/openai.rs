use rozum::chat::{ChatEvent, ContentBlock, Message, Role, StopReason, ToolDef};
use rozum::json::parse_json;
use rozum::openai_http::{
    chat_body, messages_to_oai, parse_sse_data_line, OaiToolInFlight, OpenAiHttpBackend, SseStream,
};

#[test]
fn parse_text_delta() {
    let line = r#"data: {"id":"x","choices":[{"delta":{"content":"hello"},"finish_reason":null}]}"#;
    let mut tools: Vec<OaiToolInFlight> = Vec::new();
    let events = parse_sse_data_line(line, &mut tools).unwrap();
    assert_eq!(events.len(), 1);
    assert!(matches!(&events[0], ChatEvent::TextDelta { text } if text == "hello"));
}

#[test]
fn parse_done_finish() {
    let line = r#"data: {"choices":[{"delta":{},"finish_reason":"stop"}],"usage":{"prompt_tokens":5,"completion_tokens":3}}"#;
    let mut tools = Vec::new();
    let events = parse_sse_data_line(line, &mut tools).unwrap();
    assert!(events.iter().any(|e| matches!(e, ChatEvent::Done { stop_reason: StopReason::EndTurn, .. })));
}

#[test]
fn parse_tool_call_sequence() {
    let mut tools = Vec::new();
    let l1 = r#"data: {"choices":[{"delta":{"tool_calls":[{"index":0,"id":"call_1","type":"function","function":{"name":"get_weather","arguments":""}}]},"finish_reason":null}]}"#;
    let l2 = r#"data: {"choices":[{"delta":{"tool_calls":[{"index":0,"function":{"arguments":"{\"city\":"}}]},"finish_reason":null}]}"#;
    let l3 = r#"data: {"choices":[{"delta":{},"finish_reason":"tool_calls"}]}"#;

    let e1 = parse_sse_data_line(l1, &mut tools).unwrap();
    let e2 = parse_sse_data_line(l2, &mut tools).unwrap();
    let e3 = parse_sse_data_line(l3, &mut tools).unwrap();

    assert!(e1.iter().any(|e| matches!(e, ChatEvent::ToolUseStart { name, .. } if name == "get_weather")));
    assert!(e2.iter().any(|e| matches!(e, ChatEvent::ToolUseDelta { .. })));
    assert!(e3.iter().any(|e| matches!(e, ChatEvent::Done { stop_reason: StopReason::ToolUse, .. })));
}

#[test]
fn parse_done_marker() {
    let line = "data: [DONE]";
    let mut tools = Vec::new();
    let events = parse_sse_data_line(line, &mut tools).unwrap();
    assert_eq!(events.len(), 0, "DONE marker returns empty vec");
}

fn text(role: Role, t: &str) -> Message {
    Message { role, content: vec![ContentBlock::Text { text: t.to_string() }] }
}

#[test]
fn messages_text_roundtrip() {
    let msgs = vec![text(Role::System, "You are helpful."), text(Role::User, "Hello")];
    let oai = messages_to_oai(&msgs);
    assert_eq!(oai.len(), 2);
    assert_eq!(oai[0].get_str("role").map(|s| s.as_str()), Some("system"));
    assert_eq!(oai[1].get_str("content").map(|s| s.as_str()), Some("Hello"));
}

#[test]
fn urls_and_bodies() {
    let b = OpenAiHttpBackend::new("http://h:1/v1", "m").with_api_key("k");
    assert_eq!(b.api_key.as_deref(), Some("k"));
    assert_eq!(b.chat_url(), "http://h:1/v1/chat/completions");
    assert_eq!(b.models_url(), "http://h:1/v1/models");
    let tools = vec![ToolDef {
        name: "f".to_string(),
        description: "d".to_string(),
        input_schema: parse_json("{}").unwrap(),
    }];
    let body = chat_body("m", &vec![text(Role::User, "q")], &tools, None, None, Some(9));
    let v: serde_json::Value = serde_json::from_str(&body.to_text()).unwrap();
    assert_eq!(v["model"], "m");
    assert_eq!(v["stream"], true);
    assert_eq!(v["max_tokens"], 9);
    assert_eq!(v["messages"][0]["content"], "q");
    assert_eq!(v["tools"][0]["function"]["name"], "f");
    let t = chat_body("m", &vec![], &vec![], parse_json("0.5"), None, None);
    let v: serde_json::Value = serde_json::from_str(&t.to_text()).unwrap();
    assert_eq!(v["temperature"], 0.5);
    assert!(v.get("tools").is_none());
}

fn streamed(chunks: &[&[u8]]) -> Vec<ChatEvent> {
    let mut s = SseStream::new();
    let mut out = Vec::new();
    for c in chunks {
        out.extend(s.on_chunk(c));
    }
    out.extend(s.on_end());
    out
}

#[test]
fn pieces_of_a_stream_do_not_matter() {
    let text = "data: {\"choices\":[{\"delta\":{\"content\":\"h\u{e9}\"}}]}\r\n\ndata: {\"choices\":[{\"delta\":{},\"finish_reason\":\"stop\"}]}\n\ndata: [DONE]\n";
    let whole = streamed(&[text.as_bytes()]);
    assert_eq!(whole[0], ChatEvent::TextDelta { text: "h\u{e9}".to_string() });
    assert_eq!(whole.iter().filter(|e| matches!(e, ChatEvent::Done { .. })).count(), 1);
    let (a, b) = text.as_bytes().split_at(20);
    assert_eq!(streamed(&[a, b]), whole);
}

#[test]
fn bytes_that_are_no_text_are_replaced() {
    let mut line = b"data: {\"choices\":[{\"delta\":{\"content\":\"a".to_vec();
    line.push(0xFF);
    line.extend(b"b\"}}]}\n");
    let mut s = SseStream::new();
    let e = s.on_chunk(&line);
    assert_eq!(e, vec![ChatEvent::TextDelta { text: "a\u{FFFD}b".to_string() }]);
}

#[test]
fn an_open_call_is_closed_when_the_stream_ends() {
    let l1 = "data: {\"choices\":[{\"delta\":{\"tool_calls\":[{\"index\":0,\"id\":\"c\",\"function\":{\"name\":\"f\",\"arguments\":\"{}\"}}]}}]}\ndata: {\"choices\":[{\"delta\":{},\"finish_reason\":\"tool_calls\"}]}\n";
    let e = streamed(&[l1.as_bytes()]);
    assert!(e.iter().any(|x| matches!(x, ChatEvent::ToolUseEnd { id } if id == "c")));
    let s = SseStream::new();
    assert!(matches!(s.on_cancel(), Some(ChatEvent::Done { stop_reason: StopReason::Cancelled, .. })));
}
