//! UI localisation: one flat key -> (English, Chinese) mapping table.
//!
//! Language is an explicit value threaded from the frontend and from the agent's
//! shared state, so two frontends could use different languages.
use vstd::prelude::*;
use crate::text::{lower_seq, trim, chars_of, trim_bounds, copy_chars, to_ascii_lowercase, chars_eq, matches_at, string_of, occurs_at, push_str};

verus! {

/// Interface language. `/lang` saves a workspace preference; config.toml
/// supplies the initial default and KOALA_LANG overrides the startup value.
#[derive(Debug, Clone, Copy, PartialEq, Eq)]
pub enum Lang {
    En,
    Zh,
}

impl Default for Lang {
    fn default() -> (r: Self)
        ensures
            r == Lang::En,
    {
        Lang::En
    }
}

/// The spellings that `Lang::parse` accepts, compared after trimming and ASCII
/// lowercasing.
pub open spec fn lang_named(value: Seq<char>) -> Option<Lang> {
    let t = lower_seq(trim(value));
    if t == "en"@ || t == "en-us"@ || t == "en_us"@ || t == "english"@ {
        Some(Lang::En)
    } else if t == "zh"@ || t == "zh-cn"@ || t == "zh_cn"@ || t == "cn"@ || t == "chinese"@ || t
        == "\u{4e2d}\u{6587}"@ {
        Some(Lang::Zh)
    } else {
        None
    }
}

pub open spec fn lang_code(lang: Lang) -> Seq<char> {
    match lang {
        Lang::En => "en"@,
        Lang::Zh => "zh"@,
    }
}

pub open spec fn toggle(lang: Lang) -> Lang {
    match lang {
        Lang::En => Lang::Zh,
        Lang::Zh => Lang::En,
    }
}

fn is_word(t: &Vec<char>, word: &str) -> (r: bool)
    ensures
        r == (t@ == word@),
{
    let w = chars_of(word);
    chars_eq(t.as_slice(), w.as_slice())
}

impl Lang {
    /// Both languages.
    pub const ALL: [Lang; 2] = [Lang::En, Lang::Zh];

    /// Config file / `KOALA_LANG` spelling.
    pub fn code(self) -> (r: &'static str)
        ensures
            r@ == lang_code(self),
    {
        match self {
            Lang::En => "en",
            Lang::Zh => "zh",
        }
    }

    /// Human-readable name, shown in `/lang` feedback.
    pub fn label(self) -> (r: &'static str)
        ensures
            r@ == match self {
                Lang::En => "English"@,
                Lang::Zh => "\u{4e2d}\u{6587}"@,
            },
    {
        match self {
            Lang::En => "English",
            Lang::Zh => "\u{4e2d}\u{6587}",
        }
    }

    pub fn parse(value: &str) -> (r: Option<Self>)
        ensures
            r == lang_named(value@),
    {
        let cs = chars_of(value);
        let (s, e) = trim_bounds(cs.as_slice());
        let mut t = copy_chars(cs.as_slice(), s, e);
        let ghost trimmed = t@;
        let mut i: usize = 0;
        while i < t.len()
            invariant
                i <= t@.len(),
                trimmed.len() == t@.len(),
                forall|j: int| 0 <= j < i ==> t@[j] == crate::text::ascii_lower(trimmed[j]),
                forall|j: int| i <= j < t@.len() ==> t@[j] == trimmed[j],
            decreases t@.len() - i,
        {
            let c = to_ascii_lowercase(t[i]);
            t.set(i, c);
            i = i + 1;
        }
        proof {
            assert(t@ =~= lower_seq(trim(value@)));
        }
        if is_word(&t, "en") || is_word(&t, "en-us") || is_word(&t, "en_us") || is_word(&t, "english") {
            Some(Lang::En)
        } else if is_word(&t, "zh") || is_word(&t, "zh-cn") || is_word(&t, "zh_cn") || is_word(&t, "cn")
            || is_word(&t, "chinese") || is_word(&t, "\u{4e2d}\u{6587}") {
            Some(Lang::Zh)
        } else {
            None
        }
    }

    pub fn toggled(self) -> (r: Self)
        ensures
            r == toggle(self),
    {
        match self {
            Lang::En => Lang::Zh,
            Lang::Zh => Lang::En,
        }
    }

    pub fn as_u8(self) -> (r: u8)
        ensures
            r == (match self {
                Lang::En => 0u8,
                Lang::Zh => 1u8,
            }),
    {
        match self {
            Lang::En => 0,
            Lang::Zh => 1,
        }
    }

    pub fn from_u8(value: u8) -> (r: Self)
        ensures
            r == (if value == 1 { Lang::Zh } else { Lang::En }),
    {
        match value {
            1 => Lang::Zh,
            _ => Lang::En,
        }
    }
}

/// Language shared with background work (sub-agents, tasks). Frontends stay
/// authoritative: they push updates through `SessionCommand::SetLang`.
#[derive(Debug)]
pub struct LangCell(u8);

impl LangCell {
    pub closed spec fn current(&self) -> Lang {
        Lang::from_u8_spec(self.0)
    }

    pub fn new(lang: Lang) -> (r: Self)
        ensures
            r.current() == lang,
    {
        LangCell(lang.as_u8())
    }

    pub fn get(&self) -> (r: Lang)
        ensures
            r == self.current(),
    {
        Lang::from_u8(self.0)
    }

    pub fn set(&mut self, lang: Lang)
        ensures
            final(self).current() == lang,
    {
        self.0 = lang.as_u8();
    }
}

impl Lang {
    pub open spec fn from_u8_spec(value: u8) -> Lang {
        if value == 1 { Lang::Zh } else { Lang::En }
    }
}

/// Every user-visible string. Keeping keys in one enum makes the table
/// exhaustive: adding a key without translating it fails the build.
#[derive(Debug, Clone, Copy, PartialEq, Eq)]
pub enum Key {
    InputPlaceholder,
    ClipboardLoading,
    ClipboardFailed,
    ImageLimit,
    ImageKeys,
    Current,
    NoOutput,
    HintSelectConfirmCancel,
    HintSelectResumeCancel,
    HintScrollBack,
    HintHistorySelect,
    HintTaskOutput,
    HintTasksSelect,
    CmdHelp,
    CmdSessions,
    CmdNew,
    CmdBtw,
    ExtTitle,
    ExtKeys,
    ExtEmpty,
    ExtCancel,
    ExtConfirm,
    CmdExtensions,
    BtwTitle,
    BtwKeys,
    BtwIntro,
    BtwClosed,
    CmdPlan,
    CmdModel,
    CmdPermissions,
    CmdEffort,
    CmdGraph,
    PanelGraph,
    HintGraph,
    GraphEmpty,
    GraphLegend,
    GraphSearch,
    CmdTasks,
    CmdTodos,
    CmdSkills,
    CmdCompact,
    CmdLang,
    CmdTheme,
    UsageTheme,
    InfoThemeSet,
    NoteThemeSaveFailed,
    CmdQuit,
    ProgressToolCall,
    ProgressToolResult,
    StatusGenerating,
    StatusRunningTool,
    StatusProcessing,
    StatusAwaitingApproval,
    StatusInterrupting,
    StatusContinuing,
    StatusCompacting,
    StatusNewSession,
    StatusRestoringSession,
    NoteHistoryLoadFailed,
    NoteHistorySaveFailed,
    NoteBusyDraftKept,
    QueueHeader,
    QueueKeys,
    NoteUnknownCommand,
    NoteNoModels,
    NoteNoReasoningEfforts,
    NoteToolInterrupted,
    NoteTaskNotStoppable,
    NoteBusyInterruptFirst,
    InfoCancelled,
    InfoSessionRestored,
    InfoNewSession,
    InfoAllowedOnce,
    InfoDeniedOnce,
    InfoPermissionSwitched,
    InfoModelSwitched,
    InfoEffortSwitched,
    InfoContextCompacted,
    InfoNothingToCompact,
    InfoLanguageSet,
    NoteLanguageSaveFailed,
    UsagePermissions,
    UsageModel,
    UsageEffort,
    UsageLang,
    PermNormalDesc,
    PermAskDesc,
    PermAutoEditDesc,
    PermNeverDesc,
    TaskRunning,
    TaskStopping,
    TaskDone,
    TaskFailed,
    TaskStopped,
    ToolRunning,
    ToolSucceeded,
    ToolFailed,
    ToolCancelled,
    PanelSessions,
    PanelPermissions,
    PanelModel,
    PanelEffort,
    PanelTheme,
    ThemeAuto,
    ThemeLight,
    ThemeDark,
    PanelTodos,
    PanelHelp,
    PanelHistory,
    PanelTaskOutput,
    PanelTasks,
    PanelCommands,
    LoadingSessions,
    NoSessions,
    HistoryCount,
    NoHistoryMatches,
    NoTasks,
    TaskOutputRunning,
    TaskOutputStopped,
    MoreTodos,
    HelpText,
    DetailedLog,
    ActionDenyOrInterrupt,
    ActionClosePanelToInterrupt,
    ActionInterrupt,
    StatusBarBackground,
    StatusBarHintBack,
    StatusBarHintNewContent,
    StatusBarHintBottom,
    StatusBarHintHelp,
    PermissionTitle,
    AllowBadge,
    DenyBadge,
    PermissionFooter,
    ViewFullArgs,
    ArgsLabel,
    OutputLabel,
    MoreLines,
    RecordTitle,
    ErrModelNotConfigured,
    ErrUnsupportedEffort,
    InterruptNotice,
    UntitledSession,
    UnreadableSession,
    SessionInvalidId,
    SessionReadFailed,
    SessionNotAFile,
    SessionLineCorrupt,
    SessionLineInvalidRole,
    SessionNoRecords,
    SessionDirReadFailed,
    SessionDirEntryFailed,
    SystemBase,
    SystemRules,
    SystemPlan,
    SkillsSection,
    SubagentSystem,
    ToolReadSnippet,
    ToolReadRules,
    ToolBashSnippet,
    ToolBashRules,
    ToolEditSnippet,
    ToolEditRules,
    ToolWriteSnippet,
    ToolWriteRules,
    CmdMemory,
    UsageMemory,
    MemoryIndex,
    ToolRememberSnippet,
    ToolRememberRules,
    ToolTodoSnippet,
    ToolTodoRules,
    ToolSkillSnippet,
    ToolSkillRules,
    ToolTaskSnippet,
    ToolTaskRules,
}

impl Key {
    /// Every key, in declaration order.
    pub const ALL: [Key; 176] = [Key::InputPlaceholder, Key::ClipboardLoading, Key::ClipboardFailed, Key::ImageLimit, Key::ImageKeys, Key::Current, Key::NoOutput, Key::HintSelectConfirmCancel, Key::HintSelectResumeCancel, Key::HintScrollBack, Key::HintHistorySelect, Key::HintTaskOutput, Key::HintTasksSelect, Key::CmdHelp, Key::CmdSessions, Key::CmdNew, Key::CmdBtw, Key::ExtTitle, Key::ExtKeys, Key::ExtEmpty, Key::ExtCancel, Key::ExtConfirm, Key::CmdExtensions, Key::BtwTitle, Key::BtwKeys, Key::BtwIntro, Key::BtwClosed, Key::CmdPlan, Key::CmdModel, Key::CmdPermissions, Key::CmdEffort, Key::CmdGraph, Key::PanelGraph, Key::HintGraph, Key::GraphEmpty, Key::GraphLegend, Key::GraphSearch, Key::CmdTasks, Key::CmdTodos, Key::CmdSkills, Key::CmdCompact, Key::CmdLang, Key::CmdTheme, Key::UsageTheme, Key::InfoThemeSet, Key::NoteThemeSaveFailed, Key::CmdQuit, Key::ProgressToolCall, Key::ProgressToolResult, Key::StatusGenerating, Key::StatusRunningTool, Key::StatusProcessing, Key::StatusAwaitingApproval, Key::StatusInterrupting, Key::StatusContinuing, Key::StatusCompacting, Key::StatusNewSession, Key::StatusRestoringSession, Key::NoteHistoryLoadFailed, Key::NoteHistorySaveFailed, Key::NoteBusyDraftKept, Key::QueueHeader, Key::QueueKeys, Key::NoteUnknownCommand, Key::NoteNoModels, Key::NoteNoReasoningEfforts, Key::NoteToolInterrupted, Key::NoteTaskNotStoppable, Key::NoteBusyInterruptFirst, Key::InfoCancelled, Key::InfoSessionRestored, Key::InfoNewSession, Key::InfoAllowedOnce, Key::InfoDeniedOnce, Key::InfoPermissionSwitched, Key::InfoModelSwitched, Key::InfoEffortSwitched, Key::InfoContextCompacted, Key::InfoNothingToCompact, Key::InfoLanguageSet, Key::NoteLanguageSaveFailed, Key::UsagePermissions, Key::UsageModel, Key::UsageEffort, Key::UsageLang, Key::PermNormalDesc, Key::PermAskDesc, Key::PermAutoEditDesc, Key::PermNeverDesc, Key::TaskRunning, Key::TaskStopping, Key::TaskDone, Key::TaskFailed, Key::TaskStopped, Key::ToolRunning, Key::ToolSucceeded, Key::ToolFailed, Key::ToolCancelled, Key::PanelSessions, Key::PanelPermissions, Key::PanelModel, Key::PanelEffort, Key::PanelTheme, Key::ThemeAuto, Key::ThemeLight, Key::ThemeDark, Key::PanelTodos, Key::PanelHelp, Key::PanelHistory, Key::PanelTaskOutput, Key::PanelTasks, Key::PanelCommands, Key::LoadingSessions, Key::NoSessions, Key::HistoryCount, Key::NoHistoryMatches, Key::NoTasks, Key::TaskOutputRunning, Key::TaskOutputStopped, Key::MoreTodos, Key::HelpText, Key::DetailedLog, Key::ActionDenyOrInterrupt, Key::ActionClosePanelToInterrupt, Key::ActionInterrupt, Key::StatusBarBackground, Key::StatusBarHintBack, Key::StatusBarHintNewContent, Key::StatusBarHintBottom, Key::StatusBarHintHelp, Key::PermissionTitle, Key::AllowBadge, Key::DenyBadge, Key::PermissionFooter, Key::ViewFullArgs, Key::ArgsLabel, Key::OutputLabel, Key::MoreLines, Key::RecordTitle, Key::ErrModelNotConfigured, Key::ErrUnsupportedEffort, Key::InterruptNotice, Key::UntitledSession, Key::UnreadableSession, Key::SessionInvalidId, Key::SessionReadFailed, Key::SessionNotAFile, Key::SessionLineCorrupt, Key::SessionLineInvalidRole, Key::SessionNoRecords, Key::SessionDirReadFailed, Key::SessionDirEntryFailed, Key::SystemBase, Key::SystemRules, Key::SystemPlan, Key::SkillsSection, Key::SubagentSystem, Key::ToolReadSnippet, Key::ToolReadRules, Key::ToolBashSnippet, Key::ToolBashRules, Key::ToolEditSnippet, Key::ToolEditRules, Key::ToolWriteSnippet, Key::ToolWriteRules, Key::CmdMemory, Key::UsageMemory, Key::MemoryIndex, Key::ToolRememberSnippet, Key::ToolRememberRules, Key::ToolTodoSnippet, Key::ToolTodoRules, Key::ToolSkillSnippet, Key::ToolSkillRules, Key::ToolTaskSnippet, Key::ToolTaskRules];
}

/// The (English, Chinese) pair of a key.
pub open spec fn key_texts(key: Key) -> (Seq<char>, Seq<char>) {
    match key {
        Key::InputPlaceholder => ("Type a message…"@, "输入消息…"@),
        Key::ClipboardLoading => ("Reading clipboard… wait before sending"@, "正在读取剪贴板，请稍后发送"@),
        Key::ClipboardFailed => ("Could not paste: {error}"@, "粘贴失败：{error}"@),
        Key::ImageLimit => ("At most 4 images per message"@, "每条消息最多 4 张图片"@),
        Key::ImageKeys => ("Enter sends · delete an [image N] marker to remove its image"@, "Enter 发送 · 删除 [image N] 标记即可移除图片"@),
        Key::Current => (" (current)"@, "（当前）"@),
        Key::NoOutput => ("(no output)"@, "（无输出）"@),
        Key::HintSelectConfirmCancel => ("↑↓ select · Enter confirm · Esc cancel"@, "↑↓ 选择 · Enter 确认 · Esc 取消"@),
        Key::HintSelectResumeCancel => ("↑↓ select · Enter resume · Esc cancel"@, "↑↓ 选择 · Enter 恢复 · Esc 取消"@),
        Key::HintScrollBack => ("↑↓ / PgUp/PgDn scroll · Esc back"@, "↑↓ / PgUp/PgDn 滚动 · Esc 返回"@),
        Key::HintHistorySelect => ("↑↓ select · Enter/Tab insert · Esc cancel"@, "↑↓ 选择 · Enter/Tab 回填 · Esc 取消"@),
        Key::HintTaskOutput => ("PgUp/PgDn scroll · x stop · Esc back to list"@, "PgUp/PgDn 滚动 · x 停止 · Esc 返回列表"@),
        Key::HintTasksSelect => ("↑↓ select · Enter view output · x stop · Esc back"@, "↑↓ 选择 · Enter 查看输出 · x 停止 · Esc 返回"@),
        Key::CmdHelp => ("Show keybindings and commands"@, "查看快捷键与命令"@),
        Key::CmdSessions => ("List saved sessions; Enter resumes the conversation"@, "查看历史会话，Enter 恢复并继续对话"@),
        Key::CmdNew => ("Interrupt the current work and start a new session"@, "中断前台工作并开始新会话"@),
        Key::CmdBtw => ("Temporary side conversation: /btw [question] · Alt+B keeps draft"@, "临时对话：/btw [问题] · Alt+B 保留草稿打开"@),
        Key::ExtTitle => ("Extensions"@, "扩展组件"@),
        Key::ExtKeys => ("Tab focus · Enter submit · PgUp/PgDn scroll · Esc close"@, "Tab 切换 · Enter 提交 · 翻页滚动 · Esc 关闭"@),
        Key::ExtEmpty => ("No extension widgets"@, "暂无扩展组件"@),
        Key::ExtCancel => ("Cancel"@, "取消"@),
        Key::ExtConfirm => ("Confirm"@, "确认"@),
        Key::CmdExtensions => ("Open extension components"@, "打开扩展交互组件"@),
        Key::BtwTitle => (" BTW · Temporary conversation "@, " BTW · 临时对话 "@),
        Key::BtwKeys => ("Enter send · Ctrl+C interrupt · Esc return to main"@, "Enter 发送 · Ctrl+C 中断 · Esc 返回主线"@),
        Key::BtwIntro => ("Using a snapshot of the main conversation. Follow-up questions stay here; nothing is saved. Chat only, no tools."@, "已带入主线上下文快照，支持连续追问；内容不保存。此处仅对话，不调用工具。"@),
        Key::BtwClosed => ("Temporary conversation disconnected · Esc return to main"@, "临时对话连接已关闭 · Esc 返回主线"@),
        Key::CmdPlan => ("Toggle Normal / Plan mode"@, "切换 Normal / Plan 模式"@),
        Key::CmdModel => ("Open the model picker"@, "打开模型选择列表"@),
        Key::CmdPermissions => ("Choose Normal / Ask When Need / Never Ask"@, "选择 Normal / Ask When Need / Never Ask 权限"@),
        Key::CmdEffort => ("Open the reasoning effort picker"@, "打开思考档位选择列表"@),
        Key::CmdGraph => ("Navigate the session tree"@, "浏览会话分支树"@),
        Key::PanelGraph => ("Session Tree"@, "会话树"@),
        Key::HintGraph => ("↑↓ select · ←→ details · Enter continue · r re-ask · d inspect · / search · Esc back"@, "↑↓ 选择 · ←→ 展开细节 · Enter 继续 · r 重问 · d 详情 · / 搜索 · Esc 返回"@),
        Key::GraphEmpty => ("No matching execution nodes. Older sessions have no graph records."@, "暂无匹配的执行节点。旧会话未记录 graph 数据。"@),
        Key::GraphLegend => ("Branches stay in this session · ◀ current position · ✓ done ✗ failed ● running"@, "分支保留在同一会话 · ◀ 当前继续位置 · ✓ 完成 ✗ 失败 ● 执行中"@),
        Key::GraphSearch => ("Search"@, "搜索"@),
        Key::CmdTasks => ("View and stop background tasks"@, "查看、停止后台任务"@),
        Key::CmdTodos => ("Open the full todo list"@, "打开完整 Todo 列表"@),
        Key::CmdSkills => ("List loaded skills"@, "列出已加载 skills"@),
        Key::CmdCompact => ("Compact the conversation context"@, "压缩对话上下文"@),
        Key::CmdLang => ("Switch the interface language"@, "切换界面语言"@),
        Key::CmdTheme => ("Select a terminal, light or dark theme"@, "选择跟随终端、浅色或暗色主题"@),
        Key::UsageTheme => ("Usage: /theme [auto|light|dark|catppuccin|nord|dracula|catppuccin-latte|solarized-light|github-light]"@, "用法：/theme [auto|light|dark|catppuccin|nord|dracula|catppuccin-latte|solarized-light|github-light]"@),
        Key::InfoThemeSet => ("Theme: {theme}"@, "主题：{theme}"@),
        Key::NoteThemeSaveFailed => ("Theme changed for this session, but could not save the preference: {e}"@, "本次会话的主题已切换，但无法保存主题偏好：{e}"@),
        Key::CmdQuit => ("Quit"@, "退出"@),
        Key::ProgressToolCall => ("\nTool {name}({summary})\n"@, "\n工具 {name}({summary})\n"@),
        Key::ProgressToolResult => ("\nResult: {output}\n"@, "\n结果：{output}\n"@),
        Key::StatusGenerating => ("Generating"@, "正在生成"@),
        Key::StatusRunningTool => ("Running {name}"@, "正在执行 {name}"@),
        Key::StatusProcessing => ("Processing results"@, "正在处理结果"@),
        Key::StatusAwaitingApproval => ("Waiting for approval"@, "等待权限确认"@),
        Key::StatusInterrupting => ("Interrupting"@, "正在中断"@),
        Key::StatusContinuing => ("Continuing"@, "正在继续"@),
        Key::StatusCompacting => ("Compacting context"@, "压缩上下文中"@),
        Key::StatusNewSession => ("Creating a new session"@, "正在创建新会话"@),
        Key::StatusRestoringSession => ("Restoring session"@, "正在恢复会话"@),
        Key::NoteHistoryLoadFailed => ("Failed to read input history: {e}"@, "输入历史读取失败：{e}"@),
        Key::NoteHistorySaveFailed => ("Failed to save input history: {e}"@, "输入历史保存失败：{e}"@),
        Key::NoteBusyDraftKept => ("Still running; your draft is kept — press Esc to interrupt and send"@, "正在执行，草稿已保留；Esc 中断后可发送"@),
        Key::QueueHeader => ("Queued {n} · ↑ with empty input to edit latest"@, "待执行 {n} · 输入框为空时 ↑ 取回最后一条"@),
        Key::QueueKeys => (" Enter queues · Cmd+Enter interrupts and runs now "@, " Enter 排队 · Cmd+Enter 中断并立即执行 "@),
        Key::NoteUnknownCommand => ("Unknown command: /{cmd}"@, "未知命令：/{cmd}"@),
        Key::NoteNoModels => ("No selectable models; configure llm.models"@, "没有可选模型，请配置 llm.models"@),
        Key::NoteNoReasoningEfforts => ("No reasoning efforts configured for this model (llm.reasoning_efforts)"@, "当前模型未配置思考档位（llm.reasoning_efforts）"@),
        Key::NoteToolInterrupted => ("Interrupted (completed operations were not rolled back)"@, "已中断（已完成的操作不会撤销）"@),
        Key::NoteTaskNotStoppable => ("Task #{id} already finished or cannot be stopped"@, "任务 #{id} 已结束或不可停止"@),
        Key::NoteBusyInterruptFirst => ("A turn is running; press Esc to interrupt first"@, "正在执行，请先按 Esc 中断"@),
        Key::InfoCancelled => ("Interrupted; you can keep typing. Background tasks keep running."@, "已中断，可以继续输入。后台任务仍会继续运行。"@),
        Key::InfoSessionRestored => ("Session {id} restored; you can continue"@, "已恢复会话 {id}，可继续对话"@),
        Key::InfoNewSession => ("New session started"@, "新会话已开始"@),
        Key::InfoAllowedOnce => ("Allowed once"@, "已允许本次操作"@),
        Key::InfoDeniedOnce => ("Denied"@, "已拒绝本次操作"@),
        Key::InfoPermissionSwitched => ("Permission mode: {mode} — {description}"@, "权限已切换为 {mode}：{description}"@),
        Key::InfoModelSwitched => ("Model switched to {name}"@, "模型已切换为 {name}"@),
        Key::InfoEffortSwitched => ("Reasoning effort switched to {effort}"@, "思考档位已切换为 {effort}"@),
        Key::InfoContextCompacted => ("Context compacted"@, "上下文已压缩"@),
        Key::InfoNothingToCompact => ("Nothing to compact yet"@, "暂无需要压缩的内容"@),
        Key::InfoLanguageSet => ("Language: {label}"@, "语言：{label}"@),
        Key::NoteLanguageSaveFailed => ("Language changed for this session, but could not save the preference: {e}"@, "本次会话的语言已切换，但无法保存语言偏好：{e}"@),
        Key::UsagePermissions => ("Usage: /permissions [normal|ask_when_need|auto_edit|never_ask]"@, "用法：/permissions [normal|ask_when_need|auto_edit|never_ask]"@),
        Key::UsageModel => ("Usage: /model [model name]"@, "用法：/model [模型名]"@),
        Key::UsageEffort => ("Usage: /effort [level]"@, "用法：/effort [档位]"@),
        Key::UsageLang => ("Usage: /lang [en|zh]"@, "用法：/lang [en|zh]"@),
        Key::PermNormalDesc => ("Every tool call needs approval"@, "所有工具调用都需审批"@),
        Key::PermAskDesc => ("Risky or undecidable actions need approval"@, "危险或无法判定的操作需审批"@),
        Key::PermAutoEditDesc => ("Auto-edit workspace files; shell commands and external writes may need approval"@, "自动编辑工作区文件；Shell 命令和外部写入仍可能需审批"@),
        Key::PermNeverDesc => ("Run automatically except explicitly denied tools"@, "自动执行，但仍遵守明确的 deny 禁止规则"@),
        Key::TaskRunning => ("running"@, "进行中"@),
        Key::TaskStopping => ("stopping"@, "停止中"@),
        Key::TaskDone => ("done"@, "已完成"@),
        Key::TaskFailed => ("failed"@, "失败"@),
        Key::TaskStopped => ("stopped"@, "已停止"@),
        Key::ToolRunning => ("running"@, "进行中"@),
        Key::ToolSucceeded => ("succeeded"@, "成功"@),
        Key::ToolFailed => ("failed"@, "失败"@),
        Key::ToolCancelled => ("cancelled"@, "已中断"@),
        Key::PanelSessions => ("Sessions"@, "历史会话"@),
        Key::PanelPermissions => ("Permission Level"@, "权限等级"@),
        Key::PanelModel => ("Select Model"@, "选择模型"@),
        Key::PanelEffort => ("Reasoning Effort"@, "思考档位"@),
        Key::PanelTheme => ("Select Theme"@, "选择主题"@),
        Key::ThemeAuto => ("Follow terminal"@, "跟随终端"@),
        Key::ThemeLight => ("Light appearance"@, "浅色主题"@),
        Key::ThemeDark => ("Dark appearance"@, "深色主题"@),
        Key::PanelTodos => ("Todos"@, "Todo 列表"@),
        Key::PanelHelp => ("Help"@, "帮助"@),
        Key::PanelHistory => ("Search Input History"@, "搜索输入历史"@),
        Key::PanelTaskOutput => ("Task Output"@, "任务输出"@),
        Key::PanelTasks => ("Background Tasks"@, "后台任务"@),
        Key::PanelCommands => ("Commands"@, "命令"@),
        Key::LoadingSessions => ("Loading sessions…"@, "正在读取会话…"@),
        Key::NoSessions => ("No saved sessions"@, "暂无已保存的会话"@),
        Key::HistoryCount => ("{n} matches"@, "{n} 条"@),
        Key::NoHistoryMatches => ("No matching history"@, "没有匹配的输入历史"@),
        Key::NoTasks => ("No background tasks"@, "暂无后台任务"@),
        Key::TaskOutputRunning => ("The task is still running; full output appears when it finishes."@, "任务执行中，完成后可查看完整输出。"@),
        Key::TaskOutputStopped => ("The task was stopped and collected no output."@, "任务已停止，没有已收集的输出。"@),
        Key::MoreTodos => ("  … {n} more · Ctrl+T to see all"@, "  … 另 {n} 项 · Ctrl+T 查看完整列表"@),
        Key::HelpText => ("Input & navigation\n\
             Enter sends (queues while running) · Cmd+Enter interrupts and runs now\n\
             Shift+Enter / Ctrl+J / \\+Enter adds a newline\n\
             ↑ with empty input recalls the latest queued message, then history\n\
             Ctrl+R searches history; Enter/Tab inserts, Esc keeps your draft\n\
             Ctrl+V pastes images/text; delete an [image N] marker to remove its image\n\
             \n\
             Commands & panels\n\
             / filters commands · ↑↓ select · Tab complete · Enter run\n\
             Shift+Tab cycles permission modes · /plan toggles Plan mode\n\
             Ctrl+T opens/closes the full todo list · Ctrl+O shows details\n\
             /tasks shows background tasks: ↑↓ select · Enter output · x stop\n\
             ? (empty input) or /help opens this help\n\
             \n\
             Running & quitting\n\
             Esc closes a panel; with none open it interrupts the turn\n\
             Ctrl+C interrupts the turn; clears the input when idle\n\
             Approval prompt: arrows select · Enter confirms · Esc denies\n\
             Ctrl+D (empty input) or /quit exits\n\
             PgUp/PgDn scroll history · Ctrl+End jumps to the bottom\n\
             \n\
             Commands"@, "输入与导航\n\
             Enter 发送（执行中则排队）· Cmd+Enter 中断并立即执行\n\
             Shift+Enter / Ctrl+J / \\+Enter 换行\n\
             输入框为空时 ↑ 优先取回队尾消息，否则回填历史\n\
             Ctrl+R 搜索历史，Enter/Tab 回填，Esc 保留原草稿\n\
             Ctrl+V 粘贴图片或文字；删除 [image N] 标记即可移除对应图片\n\
             \n\
             命令与面板\n\
             / 筛选命令 · ↑↓ 选择 · Tab 补全 · Enter 执行\n\
             Shift+Tab 轮换权限模式 · /plan 切换 Plan 模式\n\
             Ctrl+T 打开/关闭完整 Todo 列表 · Ctrl+O 详细记录\n\
             /tasks 查看后台任务：↑↓ 选择 · Enter 输出 · x 停止\n\
             ?（空输入）或 /help 打开帮助\n\
             \n\
             运行与退出\n\
             Esc 关闭面板；无面板时中断前台工作\n\
             Ctrl+C 中断前台工作；空闲时清空输入\n\
             权限确认：方向键选择 · Enter 确认 · Esc 拒绝\n\
             Ctrl+D（空输入）或 /quit 退出\n\
             PgUp/PgDn 历史 · Ctrl+End 回到底部\n\
             \n\
             命令列表"@),
        Key::DetailedLog => ("Detailed log"@, "详细记录"@),
        Key::ActionDenyOrInterrupt => ("Esc deny · Ctrl+C interrupt"@, "Esc 拒绝 · Ctrl+C 中断"@),
        Key::ActionClosePanelToInterrupt => ("Close the panel to interrupt"@, "关闭面板后可中断"@),
        Key::ActionInterrupt => ("Esc interrupt"@, "Esc 中断"@),
        Key::StatusBarBackground => ("bg {n} · "@, "后台 {n} · "@),
        Key::StatusBarHintBack => ("Esc back"@, "Esc 返回"@),
        Key::StatusBarHintNewContent => ("● new content · Ctrl+End"@, "● 新内容 · Ctrl+End"@),
        Key::StatusBarHintBottom => ("Ctrl+End to the bottom"@, "Ctrl+End 回到底部"@),
        Key::StatusBarHintHelp => ("? help"@, "? 帮助"@),
        Key::PermissionTitle => (" approval · this once "@, " 权限确认 · 仅本次 "@),
        Key::AllowBadge => (" allow "@, " 允许 "@),
        Key::DenyBadge => (" deny "@, " 拒绝 "@),
        Key::PermissionFooter => ("Arrows select · Enter confirm · Esc deny · PgUp/PgDn view arguments"@, "方向键选择 · Enter 确认 · Esc 拒绝 · PgUp/PgDn 查看参数"@),
        Key::ViewFullArgs => ("  … Ctrl+O to view full arguments"@, "  … Ctrl+O 查看完整参数"@),
        Key::ArgsLabel => ("  arguments"@, "  参数"@),
        Key::OutputLabel => ("  output"@, "  输出"@),
        Key::MoreLines => ("    … {n} more lines · Ctrl+O expands"@, "    … 另 {n} 行 · Ctrl+O 展开"@),
        Key::RecordTitle => ("Record {index}"@, "记录 {index}"@),
        Key::ErrModelNotConfigured => ("Unconfigured model: {name}"@, "未配置的模型：{name}"@),
        Key::ErrUnsupportedEffort => ("Unsupported reasoning effort: {requested}; available: {available}"@, "不支持的思考档位：{requested}；可选：{available}"@),
        Key::InterruptNotice => ("[This turn was interrupted. Completed operations were not rolled back; \
             tools without a result may still have taken effect, so verify before continuing.]"@, "[本轮已中断。已完成的操作不会撤销；无结果的工具可能已产生副作用，请先核实再继续。]"@),
        Key::UntitledSession => ("Untitled session"@, "未命名会话"@),
        Key::UnreadableSession => ("Unreadable session (Enter to see why)"@, "无法读取的会话（Enter 查看原因）"@),
        Key::SessionInvalidId => ("Invalid session id"@, "无效的会话 ID"@),
        Key::SessionReadFailed => ("Cannot read session {id}: {e}"@, "无法读取会话 {id}：{e}"@),
        Key::SessionNotAFile => ("Session {id} is not a regular file"@, "会话 {id} 不是普通文件"@),
        Key::SessionLineCorrupt => ("Session {id} line {line} is corrupt: {e}"@, "会话 {id} 第 {line} 行损坏：{e}"@),
        Key::SessionLineInvalidRole => ("Session {id} line {line} has an invalid role"@, "会话 {id} 第 {line} 行角色无效"@),
        Key::SessionNoRecords => ("Session {id} has no conversation records"@, "会话 {id} 没有对话记录"@),
        Key::SessionDirReadFailed => ("Cannot read the session directory: {e}"@, "无法读取会话目录：{e}"@),
        Key::SessionDirEntryFailed => ("Cannot read a session directory entry: {e}"@, "无法读取会话目录项：{e}"@),
        Key::SystemBase => ("You are koala, a personal assistant running in the user's terminal. \
             Help users investigate questions, work with files, execute tasks, and retain useful knowledge."@, "你是 koala，运行在用户终端里的个人助手。帮助用户调研问题、处理文件、执行任务，并保留有用的知识。"@),
        Key::SystemRules => ("Answer concisely and directly, in the user's language.\n\
             Show file paths clearly when working with files.\n\
             Check the results of your work and report what was completed and what remains unresolved."@, "用用户的语言简洁、直接地回答。\n\
             处理文件时清楚标明文件路径。\n\
             检查工作结果，说明已完成的内容和未解决的问题。"@),
        Key::SystemPlan => ("You are in plan mode: use the available tools to investigate and plan. \
             You may update todos and delegate investigation, but must not execute shell commands or modify files. \
             Sub-agents inherit this restriction. Wait for the user to leave plan mode before execution."@, "当前处于 plan mode：使用可用工具调查和规划。可以更新 Todo 或委派调查，\
             但不能执行 shell 命令或修改文件；子 Agent 继承此限制。等用户退出 plan mode 后再执行。"@),
        Key::SkillsSection => ("Available skills are listed below. Load a matching skill with the skill tool before following it. \
             Resolve relative references against the directory containing its SKILL.md.\n{listing}"@, "以下是可用技能目录。任务匹配时先用 skill 工具加载全文，再按指引执行。\
             相对引用以 SKILL.md 所在目录为基准。\n{listing}"@),
        Key::SubagentSystem => ("Complete the assigned subtask using your available tools. \
             Return the result, relevant evidence, and any unresolved limitations to the parent agent."@, "使用当前可用工具完成分配的子任务，向主 Agent 返回结果、相关依据和未解决的限制。"@),
        Key::ToolReadSnippet => ("Read text files with pagination"@, "分页读取文本文件"@),
        Key::ToolReadRules => ("Use read to inspect files before editing. Continue with the returned offset when more content is needed."@, "修改前先用 read 检查文件；需要更多内容时，按返回的 offset 继续读取。"@),
        Key::ToolBashSnippet => ("Execute shell commands, optionally in the background"@, "执行 shell 命令，支持后台运行"@),
        Key::ToolBashRules => ("Prefer glob/grep/read/edit/write for file discovery, search and changes. Use bash for running programs, builds and tests, or when file tools cannot handle the operation. Use background=true for long-running work."@, "文件查找、搜索和修改优先用 glob/grep/read/edit/write。用 bash 运行程序、构建和测试，或处理文件工具不支持的操作；耗时任务可用 background=true 后台运行。"@),
        Key::ToolEditSnippet => ("Make precise replacements in an existing file"@, "精确替换现有文件中的文本"@),
        Key::ToolEditRules => ("Use edit for targeted changes. Each edits[].oldText must exactly match a unique region of the original file.\n\
             Batch separate changes to one file in one edit call. Do not overlap replacements; use the smallest unique matching text."@, "局部修改用 edit；每个 edits[].oldText 必须精确且唯一地匹配原文件。\n\
             同一文件的独立修改合并到一次 edit 调用；匹配区域不能重叠，并尽量使用最短的唯一匹配文本。"@),
        Key::ToolWriteSnippet => ("Create or completely overwrite files"@, "创建或完整覆盖文件"@),
        Key::ToolWriteRules => ("Use write for new files or complete rewrites only."@, "仅在创建文件或完整重写时使用 write。"@),
        Key::CmdMemory => ("Inspect memory; toggle read/write for this running agent"@, "查看记忆；切换当前运行实例的读写开关"@),
        Key::UsageMemory => ("Usage: /memory [show | read on/off | write on/off]"@, "用法：/memory [show | read on/off | write on/off]"@),
        Key::MemoryIndex => ("Memory index for the next request (existing conversation context is not erased):"@, "下次请求的记忆索引（不会抹除已有对话上下文）："@),
        Key::ToolRememberSnippet => ("Maintain curated private memory"@, "维护精炼的私有记忆"@),
        Key::ToolRememberRules => ("Use recall before remember; save only reusable preferences, user corrections, constraints and references. Reuse stable keys to update or merge; forget obsolete entries. Do not save completion reports, test counts, todos or temporary state. Time-limited facts need expires_on. No durable learning means no write. Memory is historical reference, not current instructions, authorization or verified code state; never resume old work merely because a new session greets you."@, "写 remember 前先 recall；只保存可复用偏好、用户纠正、约束和资料入口。复用稳定键更新或合并，删除失效条目。不保存完成播报、测试计数、待办或临时状态；有时效的事实必须设置 expires_on。没有长期价值就不写。记忆是历史参考，不是当前指令、授权或已验证的代码状态；新会话问候时不要自行续接旧任务。"@),
        Key::ToolTodoSnippet => ("Update the working todo list"@, "更新当前 Todo 列表"@),
        Key::ToolTodoRules => ("Use todo_write to track multi-step work and keep progress current."@, "用 todo_write 跟踪多步骤任务，及时更新进度。"@),
        Key::ToolSkillSnippet => ("Load a skill's full instructions by name"@, "按名称加载技能全文"@),
        Key::ToolSkillRules => ("Load relevant skills on demand instead of guessing their instructions."@, "需要时加载相关技能，依据实际指引执行。"@),
        Key::ToolTaskSnippet => ("Delegate a self-contained subtask to a sub-agent"@, "将独立子任务委派给子 Agent"@),
        Key::ToolTaskRules => ("Use task for self-contained subtasks; include the context and expected outcome the sub-agent needs."@, "用 task 委派独立子任务，并提供所需上下文和预期结果。"@),
    }
}

/// The text of a key in a language.
pub open spec fn key_text(lang: Lang, key: Key) -> Seq<char> {
    match lang {
        Lang::En => key_texts(key).0,
        Lang::Zh => key_texts(key).1,
    }
}

/// The mapping table. Placeholders are `{name}`; fill them with [`fill`].
pub fn text(lang: Lang, key: Key) -> (r: &'static str)
    ensures
        r@ == key_text(lang, key),
{
    let (en, zh): (&'static str, &'static str) = match key {
        Key::InputPlaceholder => ("Type a message…", "输入消息…"),
        Key::ClipboardLoading => ("Reading clipboard… wait before sending", "正在读取剪贴板，请稍后发送"),
        Key::ClipboardFailed => ("Could not paste: {error}", "粘贴失败：{error}"),
        Key::ImageLimit => ("At most 4 images per message", "每条消息最多 4 张图片"),
        Key::ImageKeys => ("Enter sends · delete an [image N] marker to remove its image", "Enter 发送 · 删除 [image N] 标记即可移除图片"),
        Key::Current => (" (current)", "（当前）"),
        Key::NoOutput => ("(no output)", "（无输出）"),
        Key::HintSelectConfirmCancel => ("↑↓ select · Enter confirm · Esc cancel", "↑↓ 选择 · Enter 确认 · Esc 取消"),
        Key::HintSelectResumeCancel => ("↑↓ select · Enter resume · Esc cancel", "↑↓ 选择 · Enter 恢复 · Esc 取消"),
        Key::HintScrollBack => ("↑↓ / PgUp/PgDn scroll · Esc back", "↑↓ / PgUp/PgDn 滚动 · Esc 返回"),
        Key::HintHistorySelect => ("↑↓ select · Enter/Tab insert · Esc cancel", "↑↓ 选择 · Enter/Tab 回填 · Esc 取消"),
        Key::HintTaskOutput => ("PgUp/PgDn scroll · x stop · Esc back to list", "PgUp/PgDn 滚动 · x 停止 · Esc 返回列表"),
        Key::HintTasksSelect => ("↑↓ select · Enter view output · x stop · Esc back", "↑↓ 选择 · Enter 查看输出 · x 停止 · Esc 返回"),
        Key::CmdHelp => ("Show keybindings and commands", "查看快捷键与命令"),
        Key::CmdSessions => ("List saved sessions; Enter resumes the conversation", "查看历史会话，Enter 恢复并继续对话"),
        Key::CmdNew => ("Interrupt the current work and start a new session", "中断前台工作并开始新会话"),
        Key::CmdBtw => ("Temporary side conversation: /btw [question] · Alt+B keeps draft", "临时对话：/btw [问题] · Alt+B 保留草稿打开"),
        Key::ExtTitle => ("Extensions", "扩展组件"),
        Key::ExtKeys => ("Tab focus · Enter submit · PgUp/PgDn scroll · Esc close", "Tab 切换 · Enter 提交 · 翻页滚动 · Esc 关闭"),
        Key::ExtEmpty => ("No extension widgets", "暂无扩展组件"),
        Key::ExtCancel => ("Cancel", "取消"),
        Key::ExtConfirm => ("Confirm", "确认"),
        Key::CmdExtensions => ("Open extension components", "打开扩展交互组件"),
        Key::BtwTitle => (" BTW · Temporary conversation ", " BTW · 临时对话 "),
        Key::BtwKeys => ("Enter send · Ctrl+C interrupt · Esc return to main", "Enter 发送 · Ctrl+C 中断 · Esc 返回主线"),
        Key::BtwIntro => ("Using a snapshot of the main conversation. Follow-up questions stay here; nothing is saved. Chat only, no tools.", "已带入主线上下文快照，支持连续追问；内容不保存。此处仅对话，不调用工具。"),
        Key::BtwClosed => ("Temporary conversation disconnected · Esc return to main", "临时对话连接已关闭 · Esc 返回主线"),
        Key::CmdPlan => ("Toggle Normal / Plan mode", "切换 Normal / Plan 模式"),
        Key::CmdModel => ("Open the model picker", "打开模型选择列表"),
        Key::CmdPermissions => ("Choose Normal / Ask When Need / Never Ask", "选择 Normal / Ask When Need / Never Ask 权限"),
        Key::CmdEffort => ("Open the reasoning effort picker", "打开思考档位选择列表"),
        Key::CmdGraph => ("Navigate the session tree", "浏览会话分支树"),
        Key::PanelGraph => ("Session Tree", "会话树"),
        Key::HintGraph => ("↑↓ select · ←→ details · Enter continue · r re-ask · d inspect · / search · Esc back", "↑↓ 选择 · ←→ 展开细节 · Enter 继续 · r 重问 · d 详情 · / 搜索 · Esc 返回"),
        Key::GraphEmpty => ("No matching execution nodes. Older sessions have no graph records.", "暂无匹配的执行节点。旧会话未记录 graph 数据。"),
        Key::GraphLegend => ("Branches stay in this session · ◀ current position · ✓ done ✗ failed ● running", "分支保留在同一会话 · ◀ 当前继续位置 · ✓ 完成 ✗ 失败 ● 执行中"),
        Key::GraphSearch => ("Search", "搜索"),
        Key::CmdTasks => ("View and stop background tasks", "查看、停止后台任务"),
        Key::CmdTodos => ("Open the full todo list", "打开完整 Todo 列表"),
        Key::CmdSkills => ("List loaded skills", "列出已加载 skills"),
        Key::CmdCompact => ("Compact the conversation context", "压缩对话上下文"),
        Key::CmdLang => ("Switch the interface language", "切换界面语言"),
        Key::CmdTheme => ("Select a terminal, light or dark theme", "选择跟随终端、浅色或暗色主题"),
        Key::UsageTheme => ("Usage: /theme [auto|light|dark|catppuccin|nord|dracula|catppuccin-latte|solarized-light|github-light]", "用法：/theme [auto|light|dark|catppuccin|nord|dracula|catppuccin-latte|solarized-light|github-light]"),
        Key::InfoThemeSet => ("Theme: {theme}", "主题：{theme}"),
        Key::NoteThemeSaveFailed => ("Theme changed for this session, but could not save the preference: {e}", "本次会话的主题已切换，但无法保存主题偏好：{e}"),
        Key::CmdQuit => ("Quit", "退出"),
        Key::ProgressToolCall => ("\nTool {name}({summary})\n", "\n工具 {name}({summary})\n"),
        Key::ProgressToolResult => ("\nResult: {output}\n", "\n结果：{output}\n"),
        Key::StatusGenerating => ("Generating", "正在生成"),
        Key::StatusRunningTool => ("Running {name}", "正在执行 {name}"),
        Key::StatusProcessing => ("Processing results", "正在处理结果"),
        Key::StatusAwaitingApproval => ("Waiting for approval", "等待权限确认"),
        Key::StatusInterrupting => ("Interrupting", "正在中断"),
        Key::StatusContinuing => ("Continuing", "正在继续"),
        Key::StatusCompacting => ("Compacting context", "压缩上下文中"),
        Key::StatusNewSession => ("Creating a new session", "正在创建新会话"),
        Key::StatusRestoringSession => ("Restoring session", "正在恢复会话"),
        Key::NoteHistoryLoadFailed => ("Failed to read input history: {e}", "输入历史读取失败：{e}"),
        Key::NoteHistorySaveFailed => ("Failed to save input history: {e}", "输入历史保存失败：{e}"),
        Key::NoteBusyDraftKept => ("Still running; your draft is kept — press Esc to interrupt and send", "正在执行，草稿已保留；Esc 中断后可发送"),
        Key::QueueHeader => ("Queued {n} · ↑ with empty input to edit latest", "待执行 {n} · 输入框为空时 ↑ 取回最后一条"),
        Key::QueueKeys => (" Enter queues · Cmd+Enter interrupts and runs now ", " Enter 排队 · Cmd+Enter 中断并立即执行 "),
        Key::NoteUnknownCommand => ("Unknown command: /{cmd}", "未知命令：/{cmd}"),
        Key::NoteNoModels => ("No selectable models; configure llm.models", "没有可选模型，请配置 llm.models"),
        Key::NoteNoReasoningEfforts => ("No reasoning efforts configured for this model (llm.reasoning_efforts)", "当前模型未配置思考档位（llm.reasoning_efforts）"),
        Key::NoteToolInterrupted => ("Interrupted (completed operations were not rolled back)", "已中断（已完成的操作不会撤销）"),
        Key::NoteTaskNotStoppable => ("Task #{id} already finished or cannot be stopped", "任务 #{id} 已结束或不可停止"),
        Key::NoteBusyInterruptFirst => ("A turn is running; press Esc to interrupt first", "正在执行，请先按 Esc 中断"),
        Key::InfoCancelled => ("Interrupted; you can keep typing. Background tasks keep running.", "已中断，可以继续输入。后台任务仍会继续运行。"),
        Key::InfoSessionRestored => ("Session {id} restored; you can continue", "已恢复会话 {id}，可继续对话"),
        Key::InfoNewSession => ("New session started", "新会话已开始"),
        Key::InfoAllowedOnce => ("Allowed once", "已允许本次操作"),
        Key::InfoDeniedOnce => ("Denied", "已拒绝本次操作"),
        Key::InfoPermissionSwitched => ("Permission mode: {mode} — {description}", "权限已切换为 {mode}：{description}"),
        Key::InfoModelSwitched => ("Model switched to {name}", "模型已切换为 {name}"),
        Key::InfoEffortSwitched => ("Reasoning effort switched to {effort}", "思考档位已切换为 {effort}"),
        Key::InfoContextCompacted => ("Context compacted", "上下文已压缩"),
        Key::InfoNothingToCompact => ("Nothing to compact yet", "暂无需要压缩的内容"),
        Key::InfoLanguageSet => ("Language: {label}", "语言：{label}"),
        Key::NoteLanguageSaveFailed => ("Language changed for this session, but could not save the preference: {e}", "本次会话的语言已切换，但无法保存语言偏好：{e}"),
        Key::UsagePermissions => ("Usage: /permissions [normal|ask_when_need|auto_edit|never_ask]", "用法：/permissions [normal|ask_when_need|auto_edit|never_ask]"),
        Key::UsageModel => ("Usage: /model [model name]", "用法：/model [模型名]"),
        Key::UsageEffort => ("Usage: /effort [level]", "用法：/effort [档位]"),
        Key::UsageLang => ("Usage: /lang [en|zh]", "用法：/lang [en|zh]"),
        Key::PermNormalDesc => ("Every tool call needs approval", "所有工具调用都需审批"),
        Key::PermAskDesc => ("Risky or undecidable actions need approval", "危险或无法判定的操作需审批"),
        Key::PermAutoEditDesc => ("Auto-edit workspace files; shell commands and external writes may need approval", "自动编辑工作区文件；Shell 命令和外部写入仍可能需审批"),
        Key::PermNeverDesc => ("Run automatically except explicitly denied tools", "自动执行，但仍遵守明确的 deny 禁止规则"),
        Key::TaskRunning => ("running", "进行中"),
        Key::TaskStopping => ("stopping", "停止中"),
        Key::TaskDone => ("done", "已完成"),
        Key::TaskFailed => ("failed", "失败"),
        Key::TaskStopped => ("stopped", "已停止"),
        Key::ToolRunning => ("running", "进行中"),
        Key::ToolSucceeded => ("succeeded", "成功"),
        Key::ToolFailed => ("failed", "失败"),
        Key::ToolCancelled => ("cancelled", "已中断"),
        Key::PanelSessions => ("Sessions", "历史会话"),
        Key::PanelPermissions => ("Permission Level", "权限等级"),
        Key::PanelModel => ("Select Model", "选择模型"),
        Key::PanelEffort => ("Reasoning Effort", "思考档位"),
        Key::PanelTheme => ("Select Theme", "选择主题"),
        Key::ThemeAuto => ("Follow terminal", "跟随终端"),
        Key::ThemeLight => ("Light appearance", "浅色主题"),
        Key::ThemeDark => ("Dark appearance", "深色主题"),
        Key::PanelTodos => ("Todos", "Todo 列表"),
        Key::PanelHelp => ("Help", "帮助"),
        Key::PanelHistory => ("Search Input History", "搜索输入历史"),
        Key::PanelTaskOutput => ("Task Output", "任务输出"),
        Key::PanelTasks => ("Background Tasks", "后台任务"),
        Key::PanelCommands => ("Commands", "命令"),
        Key::LoadingSessions => ("Loading sessions…", "正在读取会话…"),
        Key::NoSessions => ("No saved sessions", "暂无已保存的会话"),
        Key::HistoryCount => ("{n} matches", "{n} 条"),
        Key::NoHistoryMatches => ("No matching history", "没有匹配的输入历史"),
        Key::NoTasks => ("No background tasks", "暂无后台任务"),
        Key::TaskOutputRunning => ("The task is still running; full output appears when it finishes.", "任务执行中，完成后可查看完整输出。"),
        Key::TaskOutputStopped => ("The task was stopped and collected no output.", "任务已停止，没有已收集的输出。"),
        Key::MoreTodos => ("  … {n} more · Ctrl+T to see all", "  … 另 {n} 项 · Ctrl+T 查看完整列表"),
        Key::HelpText => ("Input & navigation\n\
             Enter sends (queues while running) · Cmd+Enter interrupts and runs now\n\
             Shift+Enter / Ctrl+J / \\+Enter adds a newline\n\
             ↑ with empty input recalls the latest queued message, then history\n\
             Ctrl+R searches history; Enter/Tab inserts, Esc keeps your draft\n\
             Ctrl+V pastes images/text; delete an [image N] marker to remove its image\n\
             \n\
             Commands & panels\n\
             / filters commands · ↑↓ select · Tab complete · Enter run\n\
             Shift+Tab cycles permission modes · /plan toggles Plan mode\n\
             Ctrl+T opens/closes the full todo list · Ctrl+O shows details\n\
             /tasks shows background tasks: ↑↓ select · Enter output · x stop\n\
             ? (empty input) or /help opens this help\n\
             \n\
             Running & quitting\n\
             Esc closes a panel; with none open it interrupts the turn\n\
             Ctrl+C interrupts the turn; clears the input when idle\n\
             Approval prompt: arrows select · Enter confirms · Esc denies\n\
             Ctrl+D (empty input) or /quit exits\n\
             PgUp/PgDn scroll history · Ctrl+End jumps to the bottom\n\
             \n\
             Commands", "输入与导航\n\
             Enter 发送（执行中则排队）· Cmd+Enter 中断并立即执行\n\
             Shift+Enter / Ctrl+J / \\+Enter 换行\n\
             输入框为空时 ↑ 优先取回队尾消息，否则回填历史\n\
             Ctrl+R 搜索历史，Enter/Tab 回填，Esc 保留原草稿\n\
             Ctrl+V 粘贴图片或文字；删除 [image N] 标记即可移除对应图片\n\
             \n\
             命令与面板\n\
             / 筛选命令 · ↑↓ 选择 · Tab 补全 · Enter 执行\n\
             Shift+Tab 轮换权限模式 · /plan 切换 Plan 模式\n\
             Ctrl+T 打开/关闭完整 Todo 列表 · Ctrl+O 详细记录\n\
             /tasks 查看后台任务：↑↓ 选择 · Enter 输出 · x 停止\n\
             ?（空输入）或 /help 打开帮助\n\
             \n\
             运行与退出\n\
             Esc 关闭面板；无面板时中断前台工作\n\
             Ctrl+C 中断前台工作；空闲时清空输入\n\
             权限确认：方向键选择 · Enter 确认 · Esc 拒绝\n\
             Ctrl+D（空输入）或 /quit 退出\n\
             PgUp/PgDn 历史 · Ctrl+End 回到底部\n\
             \n\
             命令列表"),
        Key::DetailedLog => ("Detailed log", "详细记录"),
        Key::ActionDenyOrInterrupt => ("Esc deny · Ctrl+C interrupt", "Esc 拒绝 · Ctrl+C 中断"),
        Key::ActionClosePanelToInterrupt => ("Close the panel to interrupt", "关闭面板后可中断"),
        Key::ActionInterrupt => ("Esc interrupt", "Esc 中断"),
        Key::StatusBarBackground => ("bg {n} · ", "后台 {n} · "),
        Key::StatusBarHintBack => ("Esc back", "Esc 返回"),
        Key::StatusBarHintNewContent => ("● new content · Ctrl+End", "● 新内容 · Ctrl+End"),
        Key::StatusBarHintBottom => ("Ctrl+End to the bottom", "Ctrl+End 回到底部"),
        Key::StatusBarHintHelp => ("? help", "? 帮助"),
        Key::PermissionTitle => (" approval · this once ", " 权限确认 · 仅本次 "),
        Key::AllowBadge => (" allow ", " 允许 "),
        Key::DenyBadge => (" deny ", " 拒绝 "),
        Key::PermissionFooter => ("Arrows select · Enter confirm · Esc deny · PgUp/PgDn view arguments", "方向键选择 · Enter 确认 · Esc 拒绝 · PgUp/PgDn 查看参数"),
        Key::ViewFullArgs => ("  … Ctrl+O to view full arguments", "  … Ctrl+O 查看完整参数"),
        Key::ArgsLabel => ("  arguments", "  参数"),
        Key::OutputLabel => ("  output", "  输出"),
        Key::MoreLines => ("    … {n} more lines · Ctrl+O expands", "    … 另 {n} 行 · Ctrl+O 展开"),
        Key::RecordTitle => ("Record {index}", "记录 {index}"),
        Key::ErrModelNotConfigured => ("Unconfigured model: {name}", "未配置的模型：{name}"),
        Key::ErrUnsupportedEffort => ("Unsupported reasoning effort: {requested}; available: {available}", "不支持的思考档位：{requested}；可选：{available}"),
        Key::InterruptNotice => ("[This turn was interrupted. Completed operations were not rolled back; \
             tools without a result may still have taken effect, so verify before continuing.]", "[本轮已中断。已完成的操作不会撤销；无结果的工具可能已产生副作用，请先核实再继续。]"),
        Key::UntitledSession => ("Untitled session", "未命名会话"),
        Key::UnreadableSession => ("Unreadable session (Enter to see why)", "无法读取的会话（Enter 查看原因）"),
        Key::SessionInvalidId => ("Invalid session id", "无效的会话 ID"),
        Key::SessionReadFailed => ("Cannot read session {id}: {e}", "无法读取会话 {id}：{e}"),
        Key::SessionNotAFile => ("Session {id} is not a regular file", "会话 {id} 不是普通文件"),
        Key::SessionLineCorrupt => ("Session {id} line {line} is corrupt: {e}", "会话 {id} 第 {line} 行损坏：{e}"),
        Key::SessionLineInvalidRole => ("Session {id} line {line} has an invalid role", "会话 {id} 第 {line} 行角色无效"),
        Key::SessionNoRecords => ("Session {id} has no conversation records", "会话 {id} 没有对话记录"),
        Key::SessionDirReadFailed => ("Cannot read the session directory: {e}", "无法读取会话目录：{e}"),
        Key::SessionDirEntryFailed => ("Cannot read a session directory entry: {e}", "无法读取会话目录项：{e}"),
        Key::SystemBase => ("You are koala, a personal assistant running in the user's terminal. \
             Help users investigate questions, work with files, execute tasks, and retain useful knowledge.", "你是 koala，运行在用户终端里的个人助手。帮助用户调研问题、处理文件、执行任务，并保留有用的知识。"),
        Key::SystemRules => ("Answer concisely and directly, in the user's language.\n\
             Show file paths clearly when working with files.\n\
             Check the results of your work and report what was completed and what remains unresolved.", "用用户的语言简洁、直接地回答。\n\
             处理文件时清楚标明文件路径。\n\
             检查工作结果，说明已完成的内容和未解决的问题。"),
        Key::SystemPlan => ("You are in plan mode: use the available tools to investigate and plan. \
             You may update todos and delegate investigation, but must not execute shell commands or modify files. \
             Sub-agents inherit this restriction. Wait for the user to leave plan mode before execution.", "当前处于 plan mode：使用可用工具调查和规划。可以更新 Todo 或委派调查，\
             但不能执行 shell 命令或修改文件；子 Agent 继承此限制。等用户退出 plan mode 后再执行。"),
        Key::SkillsSection => ("Available skills are listed below. Load a matching skill with the skill tool before following it. \
             Resolve relative references against the directory containing its SKILL.md.\n{listing}", "以下是可用技能目录。任务匹配时先用 skill 工具加载全文，再按指引执行。\
             相对引用以 SKILL.md 所在目录为基准。\n{listing}"),
        Key::SubagentSystem => ("Complete the assigned subtask using your available tools. \
             Return the result, relevant evidence, and any unresolved limitations to the parent agent.", "使用当前可用工具完成分配的子任务，向主 Agent 返回结果、相关依据和未解决的限制。"),
        Key::ToolReadSnippet => ("Read text files with pagination", "分页读取文本文件"),
        Key::ToolReadRules => ("Use read to inspect files before editing. Continue with the returned offset when more content is needed.", "修改前先用 read 检查文件；需要更多内容时，按返回的 offset 继续读取。"),
        Key::ToolBashSnippet => ("Execute shell commands, optionally in the background", "执行 shell 命令，支持后台运行"),
        Key::ToolBashRules => ("Prefer glob/grep/read/edit/write for file discovery, search and changes. Use bash for running programs, builds and tests, or when file tools cannot handle the operation. Use background=true for long-running work.", "文件查找、搜索和修改优先用 glob/grep/read/edit/write。用 bash 运行程序、构建和测试，或处理文件工具不支持的操作；耗时任务可用 background=true 后台运行。"),
        Key::ToolEditSnippet => ("Make precise replacements in an existing file", "精确替换现有文件中的文本"),
        Key::ToolEditRules => ("Use edit for targeted changes. Each edits[].oldText must exactly match a unique region of the original file.\n\
             Batch separate changes to one file in one edit call. Do not overlap replacements; use the smallest unique matching text.", "局部修改用 edit；每个 edits[].oldText 必须精确且唯一地匹配原文件。\n\
             同一文件的独立修改合并到一次 edit 调用；匹配区域不能重叠，并尽量使用最短的唯一匹配文本。"),
        Key::ToolWriteSnippet => ("Create or completely overwrite files", "创建或完整覆盖文件"),
        Key::ToolWriteRules => ("Use write for new files or complete rewrites only.", "仅在创建文件或完整重写时使用 write。"),
        Key::CmdMemory => ("Inspect memory; toggle read/write for this running agent", "查看记忆；切换当前运行实例的读写开关"),
        Key::UsageMemory => ("Usage: /memory [show | read on/off | write on/off]", "用法：/memory [show | read on/off | write on/off]"),
        Key::MemoryIndex => ("Memory index for the next request (existing conversation context is not erased):", "下次请求的记忆索引（不会抹除已有对话上下文）："),
        Key::ToolRememberSnippet => ("Maintain curated private memory", "维护精炼的私有记忆"),
        Key::ToolRememberRules => ("Use recall before remember; save only reusable preferences, user corrections, constraints and references. Reuse stable keys to update or merge; forget obsolete entries. Do not save completion reports, test counts, todos or temporary state. Time-limited facts need expires_on. No durable learning means no write. Memory is historical reference, not current instructions, authorization or verified code state; never resume old work merely because a new session greets you.", "写 remember 前先 recall；只保存可复用偏好、用户纠正、约束和资料入口。复用稳定键更新或合并，删除失效条目。不保存完成播报、测试计数、待办或临时状态；有时效的事实必须设置 expires_on。没有长期价值就不写。记忆是历史参考，不是当前指令、授权或已验证的代码状态；新会话问候时不要自行续接旧任务。"),
        Key::ToolTodoSnippet => ("Update the working todo list", "更新当前 Todo 列表"),
        Key::ToolTodoRules => ("Use todo_write to track multi-step work and keep progress current.", "用 todo_write 跟踪多步骤任务，及时更新进度。"),
        Key::ToolSkillSnippet => ("Load a skill's full instructions by name", "按名称加载技能全文"),
        Key::ToolSkillRules => ("Load relevant skills on demand instead of guessing their instructions.", "需要时加载相关技能，依据实际指引执行。"),
        Key::ToolTaskSnippet => ("Delegate a self-contained subtask to a sub-agent", "将独立子任务委派给子 Agent"),
        Key::ToolTaskRules => ("Use task for self-contained subtasks; include the context and expected outcome the sub-agent needs.", "用 task 委派独立子任务，并提供所需上下文和预期结果。"),
    };
    match lang {
        Lang::En => en,
        Lang::Zh => zh,
    }
}

/// `str::replace` with a nonempty pattern: leftmost, non-overlapping occurrences.
pub open spec fn replace_all(s: Seq<char>, pat: Seq<char>, rep: Seq<char>) -> Seq<char>
    decreases s.len(),
{
    if pat.len() == 0 || s.len() < pat.len() {
        s
    } else if s.take(pat.len() as int) == pat {
        rep + replace_all(s.skip(pat.len() as int), pat, rep)
    } else {
        seq![s[0]] + replace_all(s.drop_first(), pat, rep)
    }
}

pub fn replace_chars(s: &[char], pat: &[char], rep: &[char]) -> (r: Vec<char>)
    requires
        pat@.len() > 0,
    ensures
        r@ == replace_all(s@, pat@, rep@),
{
    let mut out: Vec<char> = Vec::new();
    let mut i: usize = 0;
    proof {
        assert(s@.skip(0) =~= s@);
    }
    while i < s.len()
        invariant
            i <= s@.len(),
            pat@.len() > 0,
            out@ + replace_all(s@.skip(i as int), pat@, rep@) == replace_all(s@, pat@, rep@),
        decreases s@.len() - i,
    {
        let ghost tail = s@.skip(i as int);
        if matches_at(s, pat, i) {
            proof {
                assert(tail.take(pat@.len() as int) =~= s@.subrange(i as int, i + pat@.len()));
                assert(tail.skip(pat@.len() as int) =~= s@.skip(i + pat@.len()));
            }
            let mut j: usize = 0;
            let ghost before = out@;
            while j < rep.len()
                invariant
                    j <= rep@.len(),
                    out@ == before + rep@.take(j as int),
                decreases rep@.len() - j,
            {
                out.push(rep[j]);
                proof {
                    assert(rep@.take(j as int + 1) =~= rep@.take(j as int).push(rep@[j as int]));
                }
                j = j + 1;
            }
            proof {
                assert(rep@.take(rep@.len() as int) =~= rep@);
                assert(out@ + replace_all(s@.skip(i + pat@.len()), pat@, rep@) =~= before + replace_all(tail, pat@, rep@));
            }
            i = i + pat.len();
        } else {
            proof {
                if tail.len() >= pat@.len() {
                    assert(tail.take(pat@.len() as int) =~= s@.subrange(i as int, i + pat@.len()));
                }
                assert(tail.drop_first() =~= s@.skip(i + 1));
            }
            let ghost before = out@;
            out.push(s[i]);
            proof {
                assert(out@ + replace_all(s@.skip(i + 1), pat@, rep@) =~= before + replace_all(tail, pat@, rep@));
            }
            i = i + 1;
        }
    }
    proof {
        assert(s@.skip(i as int) =~= Seq::<char>::empty());
        assert(out@ + Seq::<char>::empty() =~= out@);
    }
    out
}

/// The placeholder for a name: `{name}`.
pub open spec fn placeholder(name: Seq<char>) -> Seq<char> {
    seq!['{'] + name + seq!['}']
}

/// Substitutes each `(name, value)` pair in turn.
pub open spec fn fill_all(s: Seq<char>, args: Seq<(Seq<char>, Seq<char>)>) -> Seq<char>
    decreases args.len(),
{
    if args.len() == 0 {
        s
    } else {
        replace_all(fill_all(s, args.drop_last()), placeholder(args.last().0), args.last().1)
    }
}

pub open spec fn args_view(args: Seq<(&str, &str)>) -> Seq<(Seq<char>, Seq<char>)> {
    args.map_values(|a: (&str, &str)| (a.0@, a.1@))
}

/// [`text`] with `{name}` placeholders substituted.
pub fn fill(lang: Lang, key: Key, args: &[(&str, &str)]) -> (r: String)
    ensures
        r@ == fill_all(key_text(lang, key), args_view(args@)),
{
    let mut out = chars_of(text(lang, key));
    let mut i: usize = 0;
    while i < args.len()
        invariant
            i <= args@.len(),
            out@ == fill_all(key_text(lang, key), args_view(args@.take(i as int))),
        decreases args@.len() - i,
    {
        let (name, value) = args[i];
        let mut pat: Vec<char> = Vec::new();
        pat.push('{');
        let n = chars_of(name);
        let mut j: usize = 0;
        while j < n.len()
            invariant
                j <= n@.len(),
                pat@ == seq!['{'] + n@.take(j as int),
            decreases n@.len() - j,
        {
            pat.push(n[j]);
            proof {
                assert(n@.take(j as int + 1) =~= n@.take(j as int).push(n@[j as int]));
            }
            j = j + 1;
        }
        pat.push('}');
        proof {
            assert(n@.take(n@.len() as int) =~= n@);
            assert(pat@ =~= placeholder(name@));
        }
        let v = chars_of(value);
        out = replace_chars(out.as_slice(), pat.as_slice(), v.as_slice());
        proof {
            assert(args_view(args@.take(i as int + 1)).drop_last() =~= args_view(args@.take(i as int)));
            assert(args_view(args@.take(i as int + 1)).last() == (name@, value@));
        }
        i = i + 1;
    }
    proof {
        assert(args@.take(args@.len() as int) =~= args@);
    }
    string_of(out.as_slice())
}

} // verus!
