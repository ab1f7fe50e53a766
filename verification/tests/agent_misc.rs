use koala::agent::retry::{backoff_delays, is_retryable};
use koala::agent::tools::{summarize_args, ToolResult};
use koala::i18n::{fill, text, Key, Lang};
use koala::llm::{DeltaAggregator, LlmError, Message, SseParser};
use std::time::Duration;

#[test]
fn retryable_classification() {
    assert!(is_retryable(&LlmError::Api {
        status: 429,
        body: String::new()
    }));
    assert!(is_retryable(&LlmError::Api {
        status: 503,
        body: String::new()
    }));
    assert!(!is_retryable(&LlmError::Api {
        status: 400,
        body: String::new()
    }));
    assert!(!is_retryable(&LlmError::EmptyResponse));
}

#[test]
fn backoff_grows_exponentially() {
    let delays: Vec<Duration> = backoff_delays(3).into_iter().map(Duration::from_millis).collect();
    assert_eq!(delays.len(), 3);
    assert!(delays[0] >= Duration::from_millis(1000) && delays[0] < Duration::from_millis(1500));
    assert!(delays[1] >= Duration::from_millis(2000) && delays[1] < Duration::from_millis(2500));
    assert!(delays[2] >= Duration::from_millis(4000) && delays[2] < Duration::from_millis(4500));
}

#[test]
fn backoff_caps_the_exponent() {
    let delays = backoff_delays(8);
    assert_eq!(delays.len(), 8);
    assert!(delays[5] >= 32000 && delays[5] < 32500);
    assert!(delays[7] >= 32000 && delays[7] < 32500);
}

#[test]
fn shell_output_keeps_full_display_text_and_limits_model_content() {
    let text = format!("{}END", "中文".repeat(5000));
    let result = ToolResult::shell_output(text.clone(), false);
    assert!(result.is_error);
    assert_eq!(result.display_content.as_deref(), Some(text.as_str()));
    assert!(result.content.len() < 8200);
    assert!(result.content.contains("truncated"));
    assert!(!result.content.ends_with("END"));
}

fn placeholders(s: &str) -> Vec<&str> {
    let mut found = Vec::new();
    let mut rest = s;
    while let Some(start) = rest.find('{') {
        let Some(end) = rest[start..].find('}') else {
            break;
        };
        found.push(&rest[start..start + end + 1]);
        rest = &rest[start + end + 1..];
    }
    found.sort_unstable();
    found
}

#[test]
fn every_key_has_both_languages_and_matching_placeholders() {
    for &key in Key::ALL.iter() {
        let en = text(Lang::En, key);
        let zh = text(Lang::Zh, key);
        assert!(!en.is_empty() && !zh.is_empty(), "{key:?} is untranslated");
        assert_eq!(placeholders(en), placeholders(zh), "{key:?} placeholders differ");
    }
}

#[test]
fn multiline_prompts_keep_no_continuation_artifacts() {
    for lang in Lang::ALL {
        for key in [Key::SystemBase, Key::SystemPlan, Key::SubagentSystem, Key::HelpText] {
            let text = text(lang, key);
            assert!(
                !text.contains("\n ") && !text.contains("  "),
                "{lang:?} {key:?} kept indentation from a line continuation: {text:?}"
            );
        }
    }
}

#[test]
fn fill_substitutes_named_placeholders() {
    assert_eq!(fill(Lang::En, Key::StatusRunningTool, &[("name", "bash")]), "Running bash");
    assert_eq!(fill(Lang::Zh, Key::StatusRunningTool, &[("name", "bash")]), "正在执行 bash");
}

fn sse(delta: &str) -> String {
    format!("data: {{\"choices\":[{{\"delta\":{delta}}}]}}\n")
}

#[test]
fn reasoning_content_survives_tool_round_trip() {
    let mut parser = SseParser::new();
    let mut aggregator = DeltaAggregator::default();
    let fixture = [
        sse(r#"{"reasoning_content":"think "}"#),
        sse(r#"{"reasoning_content":"more"}"#),
        sse(r#"{"tool_calls":[{"index":0,"id":"c1","function":{"name":"read","arguments":"{}"}}]}"#),
        "data: [DONE]\n".into(),
    ]
    .concat();
    for delta in parser.feed(fixture.as_bytes()) {
        aggregator.push(&delta.unwrap());
    }
    let messages = vec![aggregator.into_message(), Message::tool("c1", "result")];
    assert_eq!(messages[0].reasoning_content.as_deref(), Some("think more"));
    assert_eq!(messages[0].tool_calls.as_ref().unwrap()[0].id, "c1");
    assert!(messages[1].reasoning_content.is_none());
}

#[test]
fn summaries_pick_the_argument_each_tool_is_known_by() {
    assert_eq!(summarize_args("bash", r#"{"command":"ls -la"}"#), "ls -la");
    assert_eq!(summarize_args("remember", r#"{"text":"likes tea"}"#), "likes tea");
    assert_eq!(summarize_args("skill", r#"{"name":"pdf"}"#), "pdf");
    assert_eq!(summarize_args("task", r#"{"description":"scan repo","prompt":"x"}"#), "scan repo");
    assert_eq!(summarize_args("todo_write", r#"{"todos":[{},{},{}]}"#), "3 items");
    assert_eq!(summarize_args("read", r#"{"path":"a.md"}"#), "");
}

#[test]
fn summaries_of_bad_arguments_are_empty() {
    assert_eq!(summarize_args("bash", "not json"), "");
    assert_eq!(summarize_args("bash", r#"{"command":7}"#), "");
    assert_eq!(summarize_args("todo_write", r#"{"todos":"x"}"#), "");
}

#[test]
fn long_summaries_are_cut_at_sixty_characters() {
    let command = "é".repeat(61);
    let out = summarize_args("bash", &format!(r#"{{"command":"{command}"}}"#));
    assert_eq!(out.chars().count(), 61);
    assert!(out.ends_with('…'));
    assert!(out.starts_with(&"é".repeat(60)));
    let exact = "x".repeat(60);
    assert_eq!(summarize_args("bash", &format!(r#"{{"command":"{exact}"}}"#)), exact);
}
