//! What the host accepts from an extension: every answer is checked against the
//! phase it answers before anything in it is used or published.
use vstd::prelude::*;
use crate::extension_api::{Response, Stage};
use crate::extension_api::ui::{validate_ui, validate_ui_spec, commands_view, err_view, UiCommand};
use crate::extensions::unit_view;
use crate::json::JsonValue;
use crate::text::push_str;

verus! {

/// The check of an answer. `stage` is the hook it answers (`None` for a tool call
/// or a UI event), `callback` tells a UI event, and `ui_len` is the length of the
/// JSON encoding of its UI commands.
pub open spec fn response_check(
    name: Seq<char>,
    r: Response,
    stage: Option<Stage>,
    callback: bool,
    ui_enabled: bool,
    ui_len: nat,
) -> Result<(), Seq<char>> {
    if !callback && stage is None && r.content is None {
        Err("extension tool returned no content"@)
    } else if r.block is Some {
        Err(name + " blocked: "@ + r.block->0@)
    } else if r.arguments matches Some(a) && (stage != Some(Stage::PreToolUse) || !(a is Object)) {
        Err("arguments only allowed as object in pre_tool_use"@)
    } else if r.content is Some && (callback || (stage matches Some(s) && s != Stage::PostToolUse)) {
        Err("content only allowed in tool or post_tool_use response"@)
    } else if callback && (r.context is Some || r.is_error) {
        Err("ui_event response may only contain UI commands"@)
    } else if r.ui@.len() > 0 && !ui_enabled {
        Err("extension has not enabled v2 UI"@)
    } else {
        validate_ui_spec(commands_view(r.ui@), ui_len)
    }
}

fn is_pre_tool_use(stage: Option<Stage>) -> (r: bool)
    ensures
        r == (stage == Some(Stage::PreToolUse)),
{
    match stage {
        Some(Stage::PreToolUse) => true,
        _ => false,
    }
}

fn is_other_than_post_tool_use(stage: Option<Stage>) -> (r: bool)
    ensures
        r == (stage matches Some(s) && s != Stage::PostToolUse),
{
    match stage {
        Some(Stage::PostToolUse) => false,
        Some(_) => true,
        None => false,
    }
}

/// Checks an extension's answer before the host uses it: a tool call must bring
/// content, a veto is an error naming the extension, replacement arguments are
/// allowed only as an object before a tool runs, content only from a tool or after
/// it, a UI event may answer with UI commands alone, and UI needs the v2 opt-in
/// and a valid batch.
pub fn check_response(
    name: &str,
    response: &Response,
    stage: Option<Stage>,
    callback: bool,
    ui_enabled: bool,
    ui_len: usize,
) -> (r: Result<(), String>)
    ensures
        unit_view(r) == response_check(name@, *response, stage, callback, ui_enabled, ui_len as nat),
{
    if !callback && stage.is_none() && response.content.is_none() {
        return Err("extension tool returned no content".to_owned());
    }
    if let Some(reason) = &response.block {
        let mut e = name.to_owned();
        push_str(&mut e, " blocked: ");
        push_str(&mut e, reason.as_str());
        return Err(e);
    }
    let bad_arguments = match &response.arguments {
        Some(a) => !is_pre_tool_use(stage) || !(match a {
            JsonValue::Object(_) => true,
            _ => false,
        }),
        None => false,
    };
    if bad_arguments {
        return Err("arguments only allowed as object in pre_tool_use".to_owned());
    }
    if response.content.is_some() && (callback || is_other_than_post_tool_use(stage)) {
        return Err("content only allowed in tool or post_tool_use response".to_owned());
    }
    if callback && (response.context.is_some() || response.is_error) {
        return Err("ui_event response may only contain UI commands".to_owned());
    }
    if response.ui.len() > 0 && !ui_enabled {
        return Err("extension has not enabled v2 UI".to_owned());
    }
    let v = validate_ui(&response.ui, ui_len);
    proof {
        assert(err_view(v) == unit_view(v));
    }
    v
}

/// UI commands published by an extension, attributed to it and to the frontend
/// generation that the request was made for.
#[derive(Debug)]
pub struct UiDelivery {
    pub extension: String,
    pub commands: Vec<UiCommand>,
    pub generation: u64,
}

/// Whether an accepted answer's UI is delivered to the current frontend: only
/// answers to hooks and tool calls publish, only when they carry commands, and
/// only where the request was made with a UI attached.
pub fn publishes_ui(response: &Response, callback: bool, context_ui: bool) -> (r: bool)
    ensures
        r == (!callback && response.ui@.len() > 0 && context_ui),
{
    !callback && response.ui.len() > 0 && context_ui
}

/// A UI event reaches only an extension that opted in to UI.
pub fn check_ui_event(ui_enabled: bool) -> (r: Result<(), String>)
    ensures
        unit_view(r) == (if ui_enabled { Ok(()) } else { Err::<(), Seq<char>>("extension has not enabled UI"@) }),
{
    if !ui_enabled {
        return Err("extension has not enabled UI".to_owned());
    }
    Ok(())
}

/// An answer that vetoes is never accepted, whatever phase it answers: the host
/// reports the veto as an error that names the extension.
pub proof fn law_veto_is_an_error(
    name: Seq<char>,
    r: Response,
    stage: Option<Stage>,
    ui_enabled: bool,
    ui_len: nat,
)
    requires
        r.block is Some,
        r.content is Some || stage is Some,
    ensures
        response_check(name, r, stage, false, ui_enabled, ui_len) == Err::<(), Seq<char>>(name + " blocked: "@ + r.block->0@),
{
}

} // verus!
