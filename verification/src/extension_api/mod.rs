//! The contract between the agent and its extensions: hook stages and the
//! declarative UI that an extension may publish.
use vstd::prelude::*;
use crate::json::JsonValue;
use crate::extension_api::ui::UiCommand;

pub mod ui;

verus! {

/// The points of a turn at which extensions are consulted.
#[derive(Debug, Clone, Copy, PartialEq, Eq, Structural)]
pub enum Stage {
    TurnStart,
    BeforeModel,
    AfterModel,
    PreToolUse,
    PostToolUse,
    BeforeCompact,
    AfterCompact,
    TurnEnd,
}

/// What an extension answers to a hook, a tool call or a UI event.
#[derive(Debug)]
pub struct Response {
    /// Context appended to the system prompt (turn_start / before_model).
    pub context: Option<String>,
    /// Veto of a pre-action hook; other phases report it as an error.
    pub block: Option<String>,
    /// Replacement JSON arguments (pre_tool_use only).
    pub arguments: Option<JsonValue>,
    /// Tool execution or post_tool_use replacement result.
    pub content: Option<String>,
    pub is_error: bool,
    /// UI commands published by a v2 extension.
    pub ui: Vec<UiCommand>,
}

impl Default for Response {
    fn default() -> (r: Self)
        ensures
            r.context is None,
            r.block is None,
            r.arguments is None,
            r.content is None,
            !r.is_error,
            r.ui@.len() == 0,
    {
        Response { context: None, block: None, arguments: None, content: None, is_error: false, ui: Vec::new() }
    }
}

} // verus!
