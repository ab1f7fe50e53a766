use koala::llm::basic::SseParser;
use koala::llm::{DeltaAggregator, LlmError, StreamDelta};

fn collect(events: Vec<Result<StreamDelta, LlmError>>) -> Vec<StreamDelta> {
    events.into_iter().map(Result::unwrap).collect()
}

fn sse(delta: &str) -> String {
    format!("data: {{\"choices\":[{{\"delta\":{delta}}}]}}\n")
}

#[test]
fn mod_parses_content_deltas_split_across_feeds() {
    let mut p = SseParser::new();
    assert!(p.feed(b"data: {\"choices\":[{\"delta\":{\"content\":\"Hel").is_empty());
    let events = collect(p.feed(b"lo\"}}]}\n\ndata: {\"choices\":[{\"delta\":{\"content\":\" world\"}}]}\n"));
    assert_eq!(events.len(), 2);
    assert_eq!(events[0].content.as_deref(), Some("Hello"));
    assert_eq!(events[1].content.as_deref(), Some(" world"));
    assert!(!p.is_done());
}

#[test]
fn mod_done_marker_terminates_stream() {
    let mut p = SseParser::new();
    assert!(p.feed(b"data: [DONE]\n").is_empty());
    assert!(p.is_done());
    let events = p.feed(b"data: {\"choices\":[{\"delta\":{\"content\":\"late\"}}]}\n");
    assert!(events.is_empty());
}

#[test]
fn mod_finish_flushes_trailing_partial_line() {
    let mut p = SseParser::new();
    p.feed(b"data: {\"choices\":[{\"delta\":{\"content\":\"x\"}}]}\n");
    let events = collect(p.feed(b"data: {\"choices\":[{\"delta\":{\"content\":\"y\"}}]}"));
    assert!(events.is_empty());
    let events = collect(p.finish());
    assert_eq!(events.len(), 1);
    assert_eq!(events[0].content.as_deref(), Some("y"));
    assert!(p.is_done());
}

#[test]
fn mod_skips_comments_and_empty_lines() {
    let mut p = SseParser::new();
    let events = p.feed(b": ping\n\n  \n");
    assert!(events.is_empty());
}

#[test]
fn mod_malformed_payload_yields_error() {
    let mut p = SseParser::new();
    let events = p.feed(b"data: {not json}\n");
    assert_eq!(events.len(), 1);
    assert!(matches!(events[0], Err(LlmError::Sse(_))));
}

#[test]
fn malformed_payload_does_not_end_the_plain_stream() {
    let mut p = SseParser::new();
    let events = p.feed(b"data: {not json}\ndata: {\"choices\":[{\"delta\":{\"content\":\"ok\"}}]}\n");
    assert_eq!(events.len(), 2);
    assert!(events[0].is_err());
    assert_eq!(events[1].as_ref().unwrap().content.as_deref(), Some("ok"));
    assert!(!p.is_done());
    assert!(p.finish().is_empty());
}

#[test]
fn chunk_without_choices_yields_nothing() {
    let mut p = SseParser::new();
    assert!(p.feed(b"data: {\"usage\":{\"prompt_tokens\":1,\"completion_tokens\":2}}\n").is_empty());
    let events = p.feed(b"data: {\"choices\":[{}]}\n");
    assert_eq!(events.len(), 1);
    assert!(events[0].is_err());
}

#[test]
fn mod_tool_call_deltas_aggregate_by_index() {
    let mut p = SseParser::new();
    let mut agg = DeltaAggregator::default();
    let fixture = [
        sse(r#"{"tool_calls": [{"index": 0, "id": "call_1", "function": {"name": "memory_search", "arguments": "{\"que"}}]}"#),
        sse(r#"{"tool_calls": [{"index": 0, "function": {"arguments": "ry\":\"rust\"}"}}]}"#),
        sse(r#"{"tool_calls": [{"index": 1, "id": "call_2", "function": {"name": "memory_read", "arguments": "{\"path\":\"a.md\"}"}}]}"#),
        "data: [DONE]\n".to_string(),
    ]
    .concat();
    for ev in p.feed(fixture.as_bytes()) {
        agg.push(&ev.unwrap());
    }
    let msg = agg.into_message();
    assert_eq!(msg.role, "assistant");
    assert_eq!(msg.content, None);
    let calls = msg.tool_calls.unwrap();
    assert_eq!(calls.len(), 2);
    assert_eq!(calls[0].id, "call_1");
    assert_eq!(calls[0].function.name, "memory_search");
    assert_eq!(calls[0].function.arguments, "{\"query\":\"rust\"}");
    assert_eq!(calls[1].id, "call_2");
    assert_eq!(calls[1].function.name, "memory_read");
    assert_eq!(calls[1].function.arguments, "{\"path\":\"a.md\"}");
}

#[test]
fn mod_mixed_content_and_tool_calls() {
    let mut p = SseParser::new();
    let mut agg = DeltaAggregator::default();
    let fixture = [
        sse(r#"{"content": "thinking "}"#),
        sse(r#"{"content": "...", "tool_calls": [{"index": 0, "id": "c", "function": {"name": "f", "arguments": "{}"}}]}"#),
    ]
    .concat();
    for ev in p.feed(fixture.as_bytes()) {
        agg.push(&ev.unwrap());
    }
    let msg = agg.into_message();
    assert_eq!(msg.content.as_deref(), Some("thinking ..."));
    assert_eq!(msg.tool_calls.unwrap().len(), 1);
}
