use koala::llm::{DeltaAggregator, LlmError, Message, SseParser, StreamDelta, ImageAttachment};

fn collect(events: Vec<Result<StreamDelta, LlmError>>) -> Vec<StreamDelta> {
    events.into_iter().map(Result::unwrap).collect()
}

#[test]
fn stream_error_is_not_silently_ignored() {
    let mut parser = SseParser::new();
    let events =
        parser.feed(b"data: {\"error\":{\"message\":\"upstream failed\"}}\n\ndata: [DONE]\n");
    assert!(events.iter().any(Result::is_err));
}

#[test]
fn incomplete_stream_fails_at_eof() {
    let mut parser = SseParser::new();
    parser.feed(b"data: {\"choices\":[{\"delta\":{\"content\":\"partial\"}}]}\n");
    assert!(parser.finish().iter().any(Result::is_err));
}

#[test]
fn explicit_finish_reason_allows_eof_without_done() {
    let mut parser = SseParser::new();
    parser.feed(b"data: {\"choices\":[{\"delta\":{},\"finish_reason\":\"stop\"}]}\n");
    assert!(parser.finish().iter().all(Result::is_ok));
}

#[test]
fn length_limit_does_not_commit_truncated_tool_arguments() {
    let mut parser = SseParser::new();
    let events = parser.feed(
        b"data: {\"choices\":[{\"delta\":{},\"finish_reason\":\"length\"}]}\n\ndata: [DONE]\n",
    );
    assert!(events.iter().any(Result::is_err));
}

#[test]
fn lib_parses_content_deltas_split_across_feeds() {
    let mut p = SseParser::new();
    assert!(p.feed(b"data: {\"choices\":[{\"delta\":{\"content\":\"Hel").is_empty());
    let events = collect(
        p.feed(b"lo\"}}]}\n\ndata: {\"choices\":[{\"delta\":{\"content\":\" world\"}}]}\n"),
    );
    assert_eq!(events.len(), 2);
    assert_eq!(events[0].content.as_deref(), Some("Hello"));
    assert_eq!(events[1].content.as_deref(), Some(" world"));
    assert!(!p.is_done());
}

#[test]
fn lib_done_marker_terminates_stream() {
    let mut p = SseParser::new();
    assert!(p.feed(b"data: [DONE]\n").is_empty());
    assert!(p.is_done());
    let events = p.feed(b"data: {\"choices\":[{\"delta\":{\"content\":\"late\"}}]}\n");
    assert!(events.is_empty());
}

#[test]
fn lib_finish_flushes_trailing_partial_line() {
    let mut p = SseParser::new();
    p.feed(b"data: {\"choices\":[{\"delta\":{\"content\":\"x\"}}]}\n");
    let events = collect(p.feed(
        b"data: {\"choices\":[{\"delta\":{\"content\":\"y\"},\"finish_reason\":\"stop\"}]}",
    ));
    assert!(events.is_empty());
    let events = collect(p.finish());
    assert_eq!(events.len(), 1);
    assert_eq!(events[0].content.as_deref(), Some("y"));
}

#[test]
fn lib_skips_comments_and_empty_lines() {
    let mut p = SseParser::new();
    let events = p.feed(b": ping\n\n  \n");
    assert!(events.is_empty());
}

#[test]
fn lib_malformed_payload_yields_error() {
    let mut p = SseParser::new();
    let events = p.feed(b"data: {not json}\n");
    assert_eq!(events.len(), 1);
    assert!(matches!(events[0], Err(LlmError::Sse(_))));
}

#[test]
fn wrong_field_type_is_a_payload_error() {
    let mut p = SseParser::new();
    let events = p.feed(b"data: {\"choices\":[{\"delta\":{\"content\":7}}]}\n");
    assert_eq!(events.len(), 1);
    assert!(matches!(events[0], Err(LlmError::Sse(_))));
    assert!(p.is_done());
}

#[test]
fn usage_only_chunk_reports_usage() {
    let mut p = SseParser::new();
    let events = collect(p.feed(b"data: {\"choices\":[],\"usage\":{\"prompt_tokens\":3,\"completion_tokens\":4}}\n"));
    assert_eq!(events.len(), 1);
    let usage = events[0].usage.unwrap();
    assert_eq!((usage.prompt_tokens, usage.completion_tokens), (3, 4));
}

#[test]
fn stream_error_text_is_the_compact_error_document() {
    let mut p = SseParser::new();
    let events = p.feed(b"data: {\"error\": {\"message\" : \"boom\"}}\n");
    match &events[0] {
        Err(LlmError::Stream(text)) => assert_eq!(text, "{\"message\":\"boom\"}"),
        other => panic!("unexpected {other:?}"),
    }
    let mut p = SseParser::new();
    let events = p.feed(b"data: {\"choices\":[{\"delta\":{},\"finish_reason\":\"length\"}]}\n");
    match &events[0] {
        Err(LlmError::Stream(text)) => assert_eq!(text, "response stopped: length"),
        other => panic!("unexpected {other:?}"),
    }
}

fn sse(delta: &str) -> String {
    format!("data: {{\"choices\":[{{\"delta\":{delta}}}]}}\n")
}

#[test]
fn lib_tool_call_deltas_aggregate_by_index() {
    let mut p = SseParser::new();
    let mut agg = DeltaAggregator::default();
    let fixture = [
        sse(r#"{"tool_calls": [{"index": 0, "id": "call_1", "function": {"name": "memory_search", "arguments": "{\"que"}}]}"#),
        sse(r#"{"tool_calls": [{"index": 0, "function": {"arguments": "ry\":\"rust\"}"}}]}"#),
        sse(r#"{"tool_calls": [{"index": 1, "id": "call_2", "function": {"name": "memory_read", "arguments": "{\"path\":\"a.md\"}"}}]}"#),
        "data: [DONE]\n".to_string(),
    ]
    .concat();
    for ev in p.feed(fixture.as_bytes()) {
        agg.push(&ev.unwrap());
    }
    let msg = agg.into_message();
    assert_eq!(msg.role, "assistant");
    assert_eq!(msg.content, None);
    let calls = msg.tool_calls.unwrap();
    assert_eq!(calls.len(), 2);
    assert_eq!(calls[0].id, "call_1");
    assert_eq!(calls[0].function.name, "memory_search");
    assert_eq!(calls[0].function.arguments, "{\"query\":\"rust\"}");
    assert_eq!(calls[1].id, "call_2");
    assert_eq!(calls[1].function.name, "memory_read");
    assert_eq!(calls[1].function.arguments, "{\"path\":\"a.md\"}");
}

#[test]
fn tool_calls_come_out_in_index_order_whatever_the_arrival_order() {
    let mut p = SseParser::new();
    let mut agg = DeltaAggregator::default();
    let fixture = [
        sse(r#"{"tool_calls": [{"index": 5, "id": "late", "function": {"name": "b"}}]}"#),
        sse(r#"{"tool_calls": [{"index": 2, "id": "early", "function": {"name": "a"}}]}"#),
    ]
    .concat();
    for ev in p.feed(fixture.as_bytes()) {
        agg.push(&ev.unwrap());
    }
    let calls = agg.into_message().tool_calls.unwrap();
    assert_eq!(calls[0].id, "early");
    assert_eq!(calls[1].id, "late");
    assert_eq!(calls[1].function.arguments, "");
}

#[test]
fn lib_mixed_content_and_tool_calls() {
    let mut p = SseParser::new();
    let mut agg = DeltaAggregator::default();
    let fixture = [
        sse(r#"{"content": "thinking "}"#),
        sse(r#"{"content": "...", "tool_calls": [{"index": 0, "id": "c", "function": {"name": "f", "arguments": "{}"}}]}"#),
    ]
    .concat();
    for ev in p.feed(fixture.as_bytes()) {
        agg.push(&ev.unwrap());
    }
    let msg = agg.into_message();
    assert_eq!(msg.content.as_deref(), Some("thinking ..."));
    assert_eq!(msg.tool_calls.unwrap().len(), 1);
}

#[test]
fn reasoning_is_aggregated() {
    let mut p = SseParser::new();
    let mut agg = DeltaAggregator::default();
    let fixture = [sse(r#"{"reasoning_content":"think "}"#), sse(r#"{"reasoning_content":"more"}"#)].concat();
    for ev in p.feed(fixture.as_bytes()) {
        agg.push(&ev.unwrap());
    }
    let msg = agg.into_message();
    assert_eq!(msg.reasoning_content.as_deref(), Some("think more"));
    assert!(msg.tool_calls.is_none());
}

#[test]
fn message_constructors_and_display() {
    let tool = Message::tool("call_1", "result body");
    assert_eq!(tool.role, "tool");
    assert_eq!(tool.tool_call_id.as_deref(), Some("call_1"));
    assert_eq!(tool.content.as_deref(), Some("result body"));
    let with_images = Message::user_with_images(
        "look",
        vec![
            ImageAttachment { data_url: "data:image/png;base64,AQID".into(), width: 1920, height: 1080 },
            ImageAttachment { data_url: "x".into(), width: 2, height: 3 },
        ],
    );
    assert_eq!(with_images.display_content(), "look\n[Image 1 · 1920×1080]\n[Image 2 · 2×3]");
    let only = Message::user_with_images("", vec![ImageAttachment { data_url: "x".into(), width: 2, height: 3 }]);
    assert_eq!(only.display_content(), "[Image 1 · 2×3]");
    assert_eq!(Message::system("s").role, "system");
    assert_eq!(Message::assistant("a").content.as_deref(), Some("a"));
}
