use vstd::prelude::*;
use crate::i18n::{self, Key, Lang, key_text};
use crate::config::PermissionMode;
use super::plan::{TodoItem, TodoStatus};

verus! {

/// Commands a frontend can send to a running session. This is the entire input
/// surface of the agent core.
pub enum SessionCommand {
    /// Run one agent turn with the given user input.
    Submit(String),
    /// Stop the foreground operation, leaving background tasks running.
    Cancel,
    Shutdown,
    /// Start a fresh session (clears history and todos).
    NewSession,
    ShowSessions,
    RestoreSession(String),
    /// Toggle plan mode.
    TogglePlanMode,
    /// Select one of the configured reasoning efforts.
    SetReasoningEffort(String),
    SelectModel(String),
    SetPermissionMode(PermissionMode),
    /// Compact the conversation history now.
    Compact,
    /// Subscribe to structured task snapshots.
    ShowTasks,
    HideTasks,
    StopTask(usize),
    /// Report the skills listing.
    ShowSkills,
    /// Inspect the next memory index or change session-local read/write controls.
    Memory { control: Option<MemoryControl> },
    /// Switch the language of agent-side messages and of the system prompt.
    SetLang(Lang),
}

pub enum MemoryControl {
    Read(bool),
    Write(bool),
}

#[derive(Debug, Clone, Copy, PartialEq, Eq, Structural)]
pub enum TaskState {
    Running,
    Stopping,
    Done,
    Failed,
    Stopped,
}

pub open spec fn task_key(s: TaskState) -> Key {
    match s {
        TaskState::Running => Key::TaskRunning,
        TaskState::Stopping => Key::TaskStopping,
        TaskState::Done => Key::TaskDone,
        TaskState::Failed => Key::TaskFailed,
        TaskState::Stopped => Key::TaskStopped,
    }
}

impl TaskState {
    pub fn label(self, lang: Lang) -> (r: &'static str)
        ensures
            r@ == key_text(lang, task_key(self)),
    {
        i18n::text(
            lang,
            match self {
                TaskState::Running => Key::TaskRunning,
                TaskState::Stopping => Key::TaskStopping,
                TaskState::Done => Key::TaskDone,
                TaskState::Failed => Key::TaskFailed,
                TaskState::Stopped => Key::TaskStopped,
            },
        )
    }
}

#[derive(Debug, Clone)]
pub struct TaskView {
    pub id: usize,
    pub kind: String,
    pub description: String,
    pub status: TaskState,
    pub output: String,
    pub elapsed_ms: u64,
}

/// UI-neutral view of a todo item, so frontends don't depend on `plan`.
#[derive(Clone)]
pub struct TodoView {
    pub content: String,
    pub status: TodoState,
}

#[derive(Clone, Copy, PartialEq, Eq, Structural)]
pub enum TodoState {
    Pending,
    InProgress,
    Done,
}

impl TodoView {
    pub fn from_item(item: &TodoItem) -> (r: Self)
        ensures
            r.content@ == item.content@,
            r.status == match item.status {
                TodoStatus::Pending => TodoState::Pending,
                TodoStatus::InProgress => TodoState::InProgress,
                TodoStatus::Done => TodoState::Done,
            },
    {
        TodoView {
            content: item.content.clone(),
            status: match item.status {
                TodoStatus::Pending => TodoState::Pending,
                TodoStatus::InProgress => TodoState::InProgress,
                TodoStatus::Done => TodoState::Done,
            },
        }
    }
}

} // verus!
