use koala::agent::compact::{
    compacted, compaction_split, compaction_transcript, SummaryStep, Summarizer, KEEP_RECENT,
};
use koala::llm::{FunctionCall, ImageAttachment, Message, ToolCall};

/// Runs the summarizer against canned replies; returns the prompts sent and the
/// joined summary, or `None` where compaction gives up.
fn summarize(transcript: &str, budget: usize, replies: &[&str]) -> (Vec<String>, Option<String>) {
    let mut s = Summarizer::new(transcript, budget);
    let mut prompts = Vec::new();
    let mut replies = replies.iter();
    loop {
        match s.next() {
            SummaryStep::Ask(prompt) => {
                prompts.push(prompt);
                let Some(reply) = replies.next() else { return (prompts, None) };
                if !s.answered(reply) {
                    return (prompts, None);
                }
            }
            SummaryStep::Finished => {
                return (prompts, if s.has_summaries() { Some(s.summary()) } else { None })
            }
            SummaryStep::GiveUp => return (prompts, None),
        }
    }
}

fn compact(history: Vec<Message>, replies: &[&str]) -> (Vec<String>, Result<Vec<Message>, Vec<Message>>) {
    let Some(split) = compaction_split(&history, KEEP_RECENT) else {
        return (Vec::new(), Err(history));
    };
    let transcript = compaction_transcript(&history, split);
    let (prompts, summary) = summarize(&transcript, usize::MAX, replies);
    match summary {
        Some(summary) => (prompts, Ok(compacted(history, split, &summary))),
        None => (prompts, Err(history)),
    }
}

fn call(id: &str) -> ToolCall {
    ToolCall {
        id: id.into(),
        kind: "function".into(),
        function: FunctionCall { name: "read".into(), arguments: "{}".into() },
    }
}

#[test]
fn short_histories_are_not_compacted() {
    let history = vec![Message::user("1"), Message::assistant("2"), Message::user("3")];
    assert_eq!(compaction_split(&history, KEEP_RECENT), None);
    let five: Vec<Message> = (0..5).map(|i| Message::user(&i.to_string())).collect();
    assert_eq!(compaction_split(&five, KEEP_RECENT), None);
    let six: Vec<Message> = (0..6).map(|i| Message::user(&i.to_string())).collect();
    assert_eq!(compaction_split(&six, KEEP_RECENT), Some(2));
}

#[test]
fn tool_calls_stay_with_their_results_after_compaction() {
    let mut with_calls = Message::assistant("");
    with_calls.content = None;
    with_calls.tool_calls = Some(vec![call("a"), call("b")]);
    let history = vec![
        Message::user("old"),
        Message::assistant("old reply"),
        Message::user("work"),
        with_calls,
        Message::tool("a", "result a"),
        Message::tool("b", "result b"),
        Message::assistant("done"),
        Message::user("next"),
    ];
    let (_, out) = compact(history, &["summary"]);
    let history = out.unwrap();
    assert!(history[2].tool_calls.is_some());
    assert_eq!(history[3].tool_call_id.as_deref(), Some("a"));
    assert_eq!(history[4].tool_call_id.as_deref(), Some("b"));
}

#[test]
fn old_images_are_kept_with_their_question() {
    let image = Message::user_with_images(
        "what is this?",
        vec![ImageAttachment { data_url: "data:image/png;base64,AQID".into(), width: 1, height: 1 }],
    );
    let history = vec![
        image,
        Message::assistant("a diagram"),
        Message::user("2"),
        Message::assistant("ok"),
        Message::user("3"),
        Message::assistant("ok"),
    ];
    let (prompts, out) = compact(history, &["summary"]);
    assert!(prompts[0].contains("user: what is this?\n[Image 1 · 1×1]"));
    let history = out.unwrap();
    assert!(history
        .iter()
        .any(|m| !m.images.is_empty() && m.content.as_deref() == Some("what is this?")));
    assert_eq!(history[0].content.as_deref(), Some("[早前对话摘要]\nsummary"));
    assert_eq!(history[1].content.as_deref(), Some("了解，我会基于这些背景继续。"));
}

#[test]
fn every_old_message_reaches_a_summary_and_recent_ones_stay() {
    let history = vec![
        Message::user(&"中".repeat(7000)),
        Message::assistant("first answer"),
        Message::user("CRITICAL_MIDDLE_FACT"),
        Message::assistant("ack"),
        Message::user("recent1"),
        Message::assistant("ok"),
        Message::user("recent2"),
        Message::assistant("ok"),
    ];
    let (prompts, out) = compact(history, &["prefix summary", "CRITICAL_MIDDLE_FACT"]);
    assert_eq!(prompts.len(), 2);
    assert!(!prompts[0].contains("CRITICAL_MIDDLE_FACT"));
    assert!(prompts[1].contains("CRITICAL_MIDDLE_FACT"));
    let sent: String = prompts.iter().map(|p| p.split_once("\n\n").unwrap().1).collect();
    assert_eq!(
        sent,
        format!(
            "user: {}\n\nassistant: first answer\n\nuser: CRITICAL_MIDDLE_FACT\n\nassistant: ack\n\n",
            "中".repeat(7000)
        )
    );
    let history = out.unwrap();
    assert!(history[0].content.as_ref().unwrap().contains("CRITICAL_MIDDLE_FACT"));
    assert_eq!(history[2].content.as_deref(), Some("recent1"));
    assert_eq!(history[4].content.as_deref(), Some("recent2"));
}

#[test]
fn an_empty_later_summary_keeps_all_history() {
    let history = vec![
        Message::user(&"x".repeat(21000)),
        Message::assistant("old"),
        Message::user("1"),
        Message::assistant("2"),
        Message::user("3"),
        Message::assistant("4"),
    ];
    let (prompts, out) = compact(history, &["prefix summary", "  "]);
    assert_eq!(prompts.len(), 2);
    let kept = out.unwrap_err();
    assert_eq!(kept.len(), 6);
    assert_eq!(kept[0].content.as_deref().map(str::len), Some(21000));
}

#[test]
fn batches_respect_the_byte_limit_and_character_boundaries() {
    let transcript = "中".repeat(7000);
    let (prompts, summary) = summarize(&transcript, usize::MAX, &["a", "b"]);
    assert_eq!(summary.as_deref(), Some("a\n\nb"));
    let first = prompts[0].split_once("\n\n").unwrap().1;
    assert_eq!(first.len(), 19998);
    assert_eq!(first.chars().count() + prompts[1].split_once("\n\n").unwrap().1.chars().count(), 7000);
}

#[test]
fn a_tight_budget_halves_the_batch_or_gives_up() {
    let transcript = "y".repeat(1000);
    let (prompts, summary) = summarize(&transcript, 4096 + 1000, &["s1", "s2", "s3", "s4"]);
    assert!(summary.is_some());
    assert!(prompts.len() > 1);
    assert!(prompts.iter().all(|p| p.len() < 1000));
    let (prompts, summary) = summarize(&transcript, 10, &["s"]);
    assert!(prompts.is_empty());
    assert!(summary.is_none());
}
