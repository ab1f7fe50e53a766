//! The decisions of a running session: which commands wait for the foreground
//! operation, what each command makes the session do, and the visible record of
//! an interrupted turn.
use vstd::prelude::*;
use crate::i18n::{self, Key, Lang, key_text, fill_all, args_view};
use crate::text::push_str;
use crate::config::PermissionMode;
use super::event::SessionCommand;
use super::tools::{preview_text, result_preview};

verus! {

/// What a session does with a command.
#[derive(Debug, Clone, Copy, PartialEq, Eq, Structural)]
pub enum Route {
    /// Handled at once, whether or not an operation runs: language, cancel,
    /// shutdown, new session and the task controls.
    Control,
    /// Starts the foreground operation (a turn or a compaction).
    Start,
    /// Refused while an operation runs; the frontend is told to interrupt first.
    Busy,
    /// A session restore refused while an operation runs.
    RestoreBusy,
    /// Handled at once while no operation runs.
    Idle,
    /// Not handled by the session loop.
    Ignored,
}

/// Control commands act whatever runs; others wait for the foreground
/// operation to end.
pub open spec fn is_control(cmd: SessionCommand) -> bool {
    match cmd {
        SessionCommand::SetLang(_) | SessionCommand::Cancel | SessionCommand::Shutdown
        | SessionCommand::NewSession | SessionCommand::ShowTasks | SessionCommand::HideTasks
        | SessionCommand::StopTask(_) => true,
        _ => false,
    }
}

pub open spec fn starts_operation(cmd: SessionCommand) -> bool {
    cmd is Submit || cmd is Compact
}

pub open spec fn handled_idle(cmd: SessionCommand) -> bool {
    match cmd {
        SessionCommand::ShowSessions | SessionCommand::RestoreSession(_)
        | SessionCommand::SetPermissionMode(_) | SessionCommand::TogglePlanMode
        | SessionCommand::SelectModel(_) | SessionCommand::SetReasoningEffort(_)
        | SessionCommand::ShowSkills => true,
        _ => false,
    }
}

pub open spec fn route_of(cmd: SessionCommand, busy: bool) -> Route {
    if is_control(cmd) {
        Route::Control
    } else if busy {
        if cmd is RestoreSession { Route::RestoreBusy } else { Route::Busy }
    } else if starts_operation(cmd) {
        Route::Start
    } else if handled_idle(cmd) {
        Route::Idle
    } else {
        Route::Ignored
    }
}

/// How the session loop treats `cmd` while an operation runs (`busy`) or not.
pub fn route(cmd: &SessionCommand, busy: bool) -> (r: Route)
    ensures
        r == route_of(*cmd, busy),
{
    match cmd {
        SessionCommand::SetLang(_) | SessionCommand::Cancel | SessionCommand::Shutdown
        | SessionCommand::NewSession | SessionCommand::ShowTasks | SessionCommand::HideTasks
        | SessionCommand::StopTask(_) => Route::Control,
        SessionCommand::RestoreSession(_) if busy => Route::RestoreBusy,
        _ if busy => Route::Busy,
        SessionCommand::Submit(_) | SessionCommand::Compact => Route::Start,
        SessionCommand::ShowSessions | SessionCommand::RestoreSession(_)
        | SessionCommand::SetPermissionMode(_) | SessionCommand::TogglePlanMode
        | SessionCommand::SelectModel(_) | SessionCommand::SetReasoningEffort(_)
        | SessionCommand::ShowSkills => Route::Idle,
        _ => Route::Ignored,
    }
}

/// One foreground operation at a time: while one runs, no command starts
/// another, every non-control command is refused, and control commands are
/// handled as when idle.
pub proof fn law_one_foreground_operation(cmd: SessionCommand)
    ensures
        route_of(cmd, true) != Route::Start,
        !is_control(cmd) ==> (route_of(cmd, true) == Route::Busy || route_of(cmd, true) == Route::RestoreBusy),
        is_control(cmd) ==> route_of(cmd, true) == route_of(cmd, false),
        route_of(cmd, false) != Route::Busy && route_of(cmd, false) != Route::RestoreBusy,
{
}

/// An event of a running turn, as far as its visible record goes.
pub enum Progress {
    Text(String),
    ToolCall { name: String, summary: String },
    ToolResult { output: String },
}

/// What an event adds to the record of a turn.
pub open spec fn progress_piece(lang: Lang, event: Progress) -> Seq<char> {
    match event {
        Progress::Text(t) => t@,
        Progress::ToolCall { name, summary } => fill_all(
            key_text(lang, Key::ProgressToolCall),
            seq![("name"@, name@), ("summary"@, summary@)],
        ),
        Progress::ToolResult { output } => fill_all(
            key_text(lang, Key::ProgressToolResult),
            seq![("output"@, preview_text(output@))],
        ),
    }
}

/// Appends an event to the visible record of the running turn, written in the
/// frontend's language.
pub fn record_progress(progress: &mut String, lang: Lang, event: &Progress)
    ensures
        final(progress)@ == old(progress)@ + progress_piece(lang, *event),
{
    match event {
        Progress::Text(t) => push_str(progress, t.as_str()),
        Progress::ToolCall { name, summary } => {
            let args = [("name", name.as_str()), ("summary", summary.as_str())];
            let piece = i18n::fill(lang, Key::ProgressToolCall, &args);
            proof {
                assert(args_view(args@) =~= seq![("name"@, name@), ("summary"@, summary@)]);
            }
            push_str(progress, piece.as_str());
        },
        Progress::ToolResult { output } => {
            let preview = result_preview(output.as_str());
            let args = [("output", preview.as_str())];
            let piece = i18n::fill(lang, Key::ProgressToolResult, &args);
            proof {
                assert(args_view(args@) =~= seq![("output"@, preview@)]);
            }
            push_str(progress, piece.as_str());
        },
    }
}

/// What the session asks its host to do, in order.
#[derive(Debug)]
pub enum SessionEffect {
    /// Abort the foreground operation and wait for it, forward the events it
    /// left, and record the progress as the interrupted turn.
    StopOperation,
    /// Tell the frontend that the operation was cancelled.
    Cancelled,
    /// Leave the session loop.
    Exit,
    /// Start a fresh session with a fresh event channel, and tell the frontend.
    ResetSession,
    /// Start a turn on this input as the foreground operation.
    StartTurn(String),
    /// Start a compaction as the foreground operation.
    StartCompact,
    /// Send the task list.
    ShowTasks,
    /// Stop a background task and send the task list.
    StopTask(usize),
    /// Tell the frontend this note.
    Note(String),
    /// Tell the frontend that a session restore failed, with this reason.
    RestoreFailed(String),
    /// Send the saved sessions.
    ShowSessions,
    /// Restore the saved session with this id.
    Restore(String),
    SetPermissionMode(PermissionMode),
    TogglePlanMode,
    SelectModel(String),
    SetReasoningEffort(String),
    /// Send the skills listing.
    ShowSkills,
    /// Record the progress as the turn that ended.
    RecordProgress,
    /// Tell the frontend this error.
    Error(String),
    /// Tell the frontend that the operation is over.
    Done,
}

pub enum SessionEffectV {
    StopOperation,
    Cancelled,
    Exit,
    ResetSession,
    StartTurn(Seq<char>),
    StartCompact,
    ShowTasks,
    StopTask(usize),
    Note(Seq<char>),
    RestoreFailed(Seq<char>),
    ShowSessions,
    Restore(Seq<char>),
    SetPermissionMode(PermissionMode),
    TogglePlanMode,
    SelectModel(Seq<char>),
    SetReasoningEffort(Seq<char>),
    ShowSkills,
    RecordProgress,
    Error(Seq<char>),
    Done,
}

pub open spec fn effect_view(e: SessionEffect) -> SessionEffectV {
    match e {
        SessionEffect::StopOperation => SessionEffectV::StopOperation,
        SessionEffect::Cancelled => SessionEffectV::Cancelled,
        SessionEffect::Exit => SessionEffectV::Exit,
        SessionEffect::ResetSession => SessionEffectV::ResetSession,
        SessionEffect::StartTurn(t) => SessionEffectV::StartTurn(t@),
        SessionEffect::StartCompact => SessionEffectV::StartCompact,
        SessionEffect::ShowTasks => SessionEffectV::ShowTasks,
        SessionEffect::StopTask(id) => SessionEffectV::StopTask(id),
        SessionEffect::Note(t) => SessionEffectV::Note(t@),
        SessionEffect::RestoreFailed(t) => SessionEffectV::RestoreFailed(t@),
        SessionEffect::ShowSessions => SessionEffectV::ShowSessions,
        SessionEffect::Restore(id) => SessionEffectV::Restore(id@),
        SessionEffect::SetPermissionMode(m) => SessionEffectV::SetPermissionMode(m),
        SessionEffect::TogglePlanMode => SessionEffectV::TogglePlanMode,
        SessionEffect::SelectModel(n) => SessionEffectV::SelectModel(n@),
        SessionEffect::SetReasoningEffort(v) => SessionEffectV::SetReasoningEffort(v@),
        SessionEffect::ShowSkills => SessionEffectV::ShowSkills,
        SessionEffect::RecordProgress => SessionEffectV::RecordProgress,
        SessionEffect::Error(t) => SessionEffectV::Error(t@),
        SessionEffect::Done => SessionEffectV::Done,
    }
}

pub open spec fn effects_view(v: Seq<SessionEffect>) -> Seq<SessionEffectV> {
    v.map_values(|e: SessionEffect| effect_view(e))
}

/// The session loop's own state: whether a foreground operation runs, whether
/// the frontend watches the task list, the frontend's language, and the visible
/// record of the running turn.
pub struct SessionState {
    active: bool,
    watch_tasks: bool,
    lang: Lang,
    progress: String,
}

pub struct SessionView {
    pub active: bool,
    pub watch_tasks: bool,
    pub lang: Lang,
    pub progress: Seq<char>,
}

impl View for SessionState {
    type V = SessionView;

    closed spec fn view(&self) -> SessionView {
        SessionView { active: self.active, watch_tasks: self.watch_tasks, lang: self.lang, progress: self.progress@ }
    }
}

/// What a command does to the session and asks of its host.
pub open spec fn session_spec(s: SessionView, cmd: SessionCommand) -> (SessionView, Seq<SessionEffectV>) {
    let stop = if s.active { seq![SessionEffectV::StopOperation] } else { Seq::empty() };
    let idle = SessionView { active: false, ..s };
    let busy = key_text(s.lang, Key::NoteBusyInterruptFirst);
    match cmd {
        SessionCommand::SetLang(l) => (SessionView { lang: l, ..s }, Seq::empty()),
        SessionCommand::Cancel => (idle, if s.active { stop.push(SessionEffectV::Cancelled) } else { Seq::empty() }),
        SessionCommand::Shutdown => (idle, stop.push(SessionEffectV::Exit)),
        SessionCommand::NewSession => (
            SessionView { active: false, progress: Seq::empty(), ..s },
            stop.push(SessionEffectV::ResetSession),
        ),
        SessionCommand::ShowTasks => (SessionView { watch_tasks: true, ..s }, seq![SessionEffectV::ShowTasks]),
        SessionCommand::HideTasks => (SessionView { watch_tasks: false, ..s }, Seq::empty()),
        SessionCommand::StopTask(id) => (s, seq![SessionEffectV::StopTask(id)]),
        SessionCommand::RestoreSession(id) => if s.active {
            (s, seq![SessionEffectV::RestoreFailed(busy)])
        } else {
            (s, seq![SessionEffectV::Restore(id@)])
        },
        _ => if s.active {
            (s, seq![SessionEffectV::Note(busy)])
        } else {
            match cmd {
                SessionCommand::Submit(t) => (
                    SessionView { active: true, progress: Seq::empty(), ..s },
                    seq![SessionEffectV::StartTurn(t@)],
                ),
                SessionCommand::Compact => (
                    SessionView { active: true, progress: Seq::empty(), ..s },
                    seq![SessionEffectV::StartCompact],
                ),
                SessionCommand::ShowSessions => (s, seq![SessionEffectV::ShowSessions]),
                SessionCommand::SetPermissionMode(m) => (s, seq![SessionEffectV::SetPermissionMode(m)]),
                SessionCommand::TogglePlanMode => (s, seq![SessionEffectV::TogglePlanMode]),
                SessionCommand::SelectModel(n) => (s, seq![SessionEffectV::SelectModel(n@)]),
                SessionCommand::SetReasoningEffort(v) => (s, seq![SessionEffectV::SetReasoningEffort(v@)]),
                SessionCommand::ShowSkills => (s, seq![SessionEffectV::ShowSkills]),
                _ => (s, Seq::empty()),
            }
        },
    }
}

/// What the end of the foreground operation does: the progress is recorded, a
/// failure is reported, and the frontend is told the operation is over.
pub open spec fn ended_spec(s: SessionView, error: Option<Seq<char>>) -> (SessionView, Seq<SessionEffectV>) {
    (
        SessionView { active: false, ..s },
        seq![SessionEffectV::RecordProgress] + match error {
            Some(e) => seq![SessionEffectV::Error("operation failed: "@ + e)],
            None => Seq::empty(),
        } + seq![SessionEffectV::Done],
    )
}

impl SessionState {
    /// A session with no operation running, in the frontend's language.
    pub fn new(lang: Lang) -> (r: Self)
        ensures
            r@ == (SessionView { active: false, watch_tasks: false, lang: lang, progress: Seq::empty() }),
    {
        SessionState { active: false, watch_tasks: false, lang, progress: String::new() }
    }

    /// Whether a foreground operation runs.
    pub fn active(&self) -> (r: bool)
        ensures
            r == self@.active,
    {
        self.active
    }

    /// Whether the frontend watches the task list.
    pub fn watch_tasks(&self) -> (r: bool)
        ensures
            r == self@.watch_tasks,
    {
        self.watch_tasks
    }

    /// The frontend's language.
    pub fn lang(&self) -> (r: Lang)
        ensures
            r == self@.lang,
    {
        self.lang
    }

    /// The visible record of the running turn.
    pub fn progress(&self) -> (r: &str)
        ensures
            r@ == self@.progress,
    {
        self.progress.as_str()
    }

    /// Adds an event of the running turn to its record.
    pub fn record(&mut self, event: &Progress)
        ensures
            final(self)@ == (SessionView { progress: old(self)@.progress + progress_piece(old(self)@.lang, *event), ..old(self)@ }),
    {
        let lang = self.lang;
        record_progress(&mut self.progress, lang, event);
    }

    /// A restored session starts with an empty record and no task watch.
    pub fn restored(&mut self)
        ensures
            final(self)@ == (SessionView { progress: Seq::empty(), watch_tasks: false, ..old(self)@ }),
    {
        self.progress = String::new();
        self.watch_tasks = false;
    }

    /// Takes a command from the frontend and says what to do.
    pub fn session_step(&mut self, cmd: SessionCommand) -> (effects: Vec<SessionEffect>)
        ensures
            (final(self)@, effects_view(effects@)) == session_spec(old(self)@, cmd),
    {
        let ghost c = cmd;
        let mut out: Vec<SessionEffect> = Vec::new();
        let was_active = self.active;
        match cmd {
            SessionCommand::SetLang(l) => {
                self.lang = l;
            },
            SessionCommand::Cancel => {
                if was_active {
                    out.push(SessionEffect::StopOperation);
                    out.push(SessionEffect::Cancelled);
                }
                self.active = false;
            },
            SessionCommand::Shutdown => {
                if was_active {
                    out.push(SessionEffect::StopOperation);
                }
                out.push(SessionEffect::Exit);
                self.active = false;
            },
            SessionCommand::NewSession => {
                if was_active {
                    out.push(SessionEffect::StopOperation);
                }
                out.push(SessionEffect::ResetSession);
                self.active = false;
                self.progress = String::new();
            },
            SessionCommand::ShowTasks => {
                self.watch_tasks = true;
                out.push(SessionEffect::ShowTasks);
            },
            SessionCommand::HideTasks => {
                self.watch_tasks = false;
            },
            SessionCommand::StopTask(id) => {
                out.push(SessionEffect::StopTask(id));
            },
            SessionCommand::RestoreSession(id) => {
                if was_active {
                    out.push(SessionEffect::RestoreFailed(i18n::text(self.lang, Key::NoteBusyInterruptFirst).to_owned()));
                } else {
                    out.push(SessionEffect::Restore(id));
                }
            },
            other => {
                if was_active {
                    out.push(SessionEffect::Note(i18n::text(self.lang, Key::NoteBusyInterruptFirst).to_owned()));
                } else {
                    match other {
                        SessionCommand::Submit(t) => {
                            self.active = true;
                            self.progress = String::new();
                            out.push(SessionEffect::StartTurn(t));
                        },
                        SessionCommand::Compact => {
                            self.active = true;
                            self.progress = String::new();
                            out.push(SessionEffect::StartCompact);
                        },
                        SessionCommand::ShowSessions => out.push(SessionEffect::ShowSessions),
                        SessionCommand::SetPermissionMode(m) => out.push(SessionEffect::SetPermissionMode(m)),
                        SessionCommand::TogglePlanMode => out.push(SessionEffect::TogglePlanMode),
                        SessionCommand::SelectModel(n) => out.push(SessionEffect::SelectModel(n)),
                        SessionCommand::SetReasoningEffort(v) => out.push(SessionEffect::SetReasoningEffort(v)),
                        SessionCommand::ShowSkills => out.push(SessionEffect::ShowSkills),
                        _ => {},
                    }
                }
            },
        }
        proof {
            assert(effects_view(out@) =~= session_spec(old(self)@, c).1);
        }
        out
    }

    /// The foreground operation ended by itself, with an error or without.
    pub fn operation_ended(&mut self, error: Option<String>) -> (effects: Vec<SessionEffect>)
        ensures
            (final(self)@, effects_view(effects@)) == ended_spec(old(self)@, match error {
                Some(e) => Some(e@),
                None => None,
            }),
    {
        let mut out: Vec<SessionEffect> = Vec::new();
        out.push(SessionEffect::RecordProgress);
        match error {
            Some(e) => {
                let mut text = String::new();
                push_str(&mut text, "operation failed: ");
                push_str(&mut text, e.as_str());
                out.push(SessionEffect::Error(text));
            },
            None => {},
        }
        out.push(SessionEffect::Done);
        self.active = false;
        proof {
            assert(effects_view(out@) =~= ended_spec(old(self)@, match error {
                Some(e) => Some(e@),
                None => None,
            }).1);
        }
        out
    }
}

/// One foreground operation at a time: a command starts an operation only when
/// none runs, and the session then counts one as running; a cancel asks to stop
/// the operation and reports the cancellation exactly when one runs.
pub proof fn law_session_one_operation(s: SessionView, cmd: SessionCommand)
    ensures
        forall|i: int| 0 <= i < session_spec(s, cmd).1.len() ==> (#[trigger] session_spec(s, cmd).1[i] is StartTurn
            || session_spec(s, cmd).1[i] is StartCompact) ==> !s.active && session_spec(s, cmd).0.active,
        session_spec(s, cmd).0.active ==> s.active || starts_operation(cmd),
        cmd is Cancel ==> (session_spec(s, cmd).1.len() > 0 <==> s.active) && !session_spec(s, cmd).0.active,
{
}

} // verus!
