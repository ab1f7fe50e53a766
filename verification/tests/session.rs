use koala::agent::event::SessionCommand;
use koala::agent::session::{record_progress, route, Progress, Route, SessionEffect, SessionState};
use koala::config::PermissionMode;
use koala::i18n::Lang;

#[test]
fn busy_session_starts_nothing_and_keeps_controls() {
    assert_eq!(route(&SessionCommand::Submit("hi".into()), true), Route::Busy);
    assert_eq!(route(&SessionCommand::Compact, true), Route::Busy);
    assert_eq!(route(&SessionCommand::RestoreSession("s".into()), true), Route::RestoreBusy);
    assert_eq!(route(&SessionCommand::ShowSessions, true), Route::Busy);
    assert_eq!(route(&SessionCommand::TogglePlanMode, true), Route::Busy);
    assert_eq!(route(&SessionCommand::Memory { control: None }, true), Route::Busy);
    assert_eq!(route(&SessionCommand::Cancel, true), Route::Control);
    assert_eq!(route(&SessionCommand::SetLang(Lang::Zh), true), Route::Control);
    assert_eq!(route(&SessionCommand::StopTask(3), true), Route::Control);
    assert_eq!(route(&SessionCommand::NewSession, true), Route::Control);
}

#[test]
fn idle_session_starts_turns_and_handles_settings() {
    assert_eq!(route(&SessionCommand::Submit("hi".into()), false), Route::Start);
    assert_eq!(route(&SessionCommand::Compact, false), Route::Start);
    assert_eq!(route(&SessionCommand::RestoreSession("s".into()), false), Route::Idle);
    assert_eq!(route(&SessionCommand::SetPermissionMode(PermissionMode::Normal), false), Route::Idle);
    assert_eq!(route(&SessionCommand::SelectModel("m".into()), false), Route::Idle);
    assert_eq!(route(&SessionCommand::ShowSkills, false), Route::Idle);
    assert_eq!(route(&SessionCommand::Memory { control: None }, false), Route::Ignored);
    assert_eq!(route(&SessionCommand::Shutdown, false), Route::Control);
    assert_eq!(route(&SessionCommand::HideTasks, false), Route::Control);
}

#[test]
fn progress_records_text_and_tool_activity() {
    let mut progress = String::new();
    record_progress(&mut progress, Lang::En, &Progress::Text("Hello".into()));
    assert_eq!(progress, "Hello");
    record_progress(
        &mut progress,
        Lang::En,
        &Progress::ToolCall { name: "bash".into(), summary: "ls".into() },
    );
    assert!(progress.starts_with("Hello"));
    assert!(progress.contains("bash"));
    assert!(progress.contains("ls"));
    let before = progress.len();
    record_progress(
        &mut progress,
        Lang::En,
        &Progress::ToolResult { output: "1\n2\n3\n4\n5\n6\n7".into() },
    );
    assert!(progress.len() > before);
    assert!(progress.contains("1\n2"));
    assert!(progress.contains("6\n7"));
    assert!(!progress.contains("3\n4"));
}

#[test]
fn session_machine_runs_one_operation_and_refuses_while_busy() {
    let busy = koala::i18n::text(Lang::En, koala::i18n::Key::NoteBusyInterruptFirst);
    let mut session = SessionState::new(Lang::En);
    let e = session.session_step(SessionCommand::Submit("hi".into()));
    assert!(matches!(e.as_slice(), [SessionEffect::StartTurn(t)] if t == "hi"));
    assert!(session.active());
    let e = session.session_step(SessionCommand::Compact);
    assert!(matches!(e.as_slice(), [SessionEffect::Note(t)] if t == busy));
    let e = session.session_step(SessionCommand::RestoreSession("s".into()));
    assert!(matches!(e.as_slice(), [SessionEffect::RestoreFailed(t)] if t == busy));
    let e = session.session_step(SessionCommand::ShowTasks);
    assert!(matches!(e.as_slice(), [SessionEffect::ShowTasks]));
    assert!(session.watch_tasks());
    let e = session.session_step(SessionCommand::Cancel);
    assert!(matches!(e.as_slice(), [SessionEffect::StopOperation, SessionEffect::Cancelled]));
    assert!(!session.active());
    let e = session.session_step(SessionCommand::Cancel);
    assert!(e.is_empty());
    let e = session.session_step(SessionCommand::RestoreSession("s".into()));
    assert!(matches!(e.as_slice(), [SessionEffect::Restore(id)] if id == "s"));
    let e = session.session_step(SessionCommand::Shutdown);
    assert!(matches!(e.as_slice(), [SessionEffect::Exit]));
}

#[test]
fn ended_operation_records_progress_and_reports_failure() {
    let mut session = SessionState::new(Lang::En);
    session.session_step(SessionCommand::Compact);
    session.record(&Progress::Text("partial".into()));
    assert_eq!(session.progress(), "partial");
    let e = session.operation_ended(Some("boom".into()));
    assert!(matches!(
        e.as_slice(),
        [SessionEffect::RecordProgress, SessionEffect::Error(t), SessionEffect::Done] if t == "operation failed: boom"
    ));
    assert!(!session.active());
    let e = session.session_step(SessionCommand::NewSession);
    assert!(matches!(e.as_slice(), [SessionEffect::ResetSession]));
    assert_eq!(session.progress(), "");
}
