use koala::agent::transcripts::{session_views, SessionEntry};
use koala::agent::transcripts::{
    check_records, journal_records, record_lines, session_title, valid_id, Record,
};
use koala::agent::work::Trace;
use koala::i18n::Lang;

fn record(role: &str, content: &str) -> Record {
    Record { ts: "then".into(), role: role.into(), content: content.into() }
}

#[test]
fn session_ids_are_letters_digits_and_hyphens() {
    assert!(valid_id("20250101-120000-abc123"));
    assert!(!valid_id(""));
    assert!(!valid_id("../etc"));
    assert!(!valid_id("a b"));
    assert!(!valid_id("名字"));
}

#[test]
fn blank_lines_are_skipped_and_numbers_kept() {
    let lines = record_lines("{\"a\":1}\n\n   \n{\"b\":2}\r\n");
    assert_eq!(lines, vec![(1, "{\"a\":1}".to_string()), (4, "{\"b\":2}".to_string())]);
    assert!(record_lines("").is_empty());
}

#[test]
fn a_corrupt_line_rejects_the_whole_transcript() {
    let parsed = vec![
        (1, Ok(record("user", "hi"))),
        (3, Err("EOF while parsing".to_string())),
        (4, Ok(record("system", "x"))),
    ];
    assert_eq!(
        check_records(Lang::En, "saved", parsed).unwrap_err(),
        "Session saved line 3 is corrupt: EOF while parsing"
    );
}

#[test]
fn other_roles_are_rejected_and_empty_transcripts_too() {
    let parsed = vec![(1, Ok(record("user", "hi"))), (2, Ok(record("system", "x")))];
    assert_eq!(
        check_records(Lang::En, "s1", parsed).unwrap_err(),
        "Session s1 line 2 has an invalid role"
    );
    assert_eq!(
        check_records(Lang::En, "s2", Vec::new()).unwrap_err(),
        "Session s2 has no conversation records"
    );
}

#[test]
fn good_transcripts_restore_every_record_in_order() {
    let parsed = vec![
        (1, Ok(record("user", "old"))),
        (2, Ok(record("user", "你好"))),
        (3, Ok(record("assistant", "回答"))),
    ];
    let records = check_records(Lang::En, "saved", parsed).unwrap();
    assert_eq!(records.len(), 3);
    assert_eq!(records[1].content, "你好");
    assert_eq!(records[2].role, "assistant");
}

#[test]
fn journal_traces_become_records_without_timestamps() {
    let trace = vec![
        Trace::User("q".into()),
        Trace::Note("n".into()),
        Trace::Text("a".into()),
    ];
    let records = journal_records(trace);
    assert_eq!(records.len(), 2);
    assert_eq!((records[0].role.as_str(), records[0].content.as_str()), ("user", "q"));
    assert_eq!((records[1].role.as_str(), records[1].content.as_str()), ("assistant", "a"));
    assert!(records.iter().all(|r| r.ts.is_empty()));
}

#[test]
fn titles_collapse_white_space_and_stop_at_sixty_four_characters() {
    let records = vec![record("assistant", "hello"), record("user", "  fix\n the\t\tbug  ")];
    assert_eq!(session_title(Lang::En, Some(&records)), "fix the bug");
    let long = vec![record("user", &"字".repeat(70))];
    assert_eq!(session_title(Lang::En, Some(&long)), "字".repeat(64));
    assert_eq!(session_title(Lang::En, Some(&vec![record("assistant", "x")])), "Untitled session");
    assert_eq!(session_title(Lang::En, None), "Unreadable session (Enter to see why)");
}

fn entry(id: &str, modified: u64) -> SessionEntry {
    SessionEntry { id: id.into(), modified, title: format!("t-{id}-{modified}"), updated: "2024-01-01 00:00".into() }
}

#[test]
fn session_list_is_newest_first_one_per_id_with_current_flagged() {
    let views = session_views(vec![entry("a", 5), entry("b", 7), entry("a", 9), entry("c", 7)], "b");
    let ids: Vec<&str> = views.iter().map(|v| v.id.as_str()).collect();
    assert_eq!(ids, vec!["c", "b", "a"]);
    assert_eq!(views[2].title, "t-a-5");
    assert!(views[1].current);
    assert!(!views[0].current && !views[2].current);
    assert!(session_views(vec![], "x").is_empty());
}
