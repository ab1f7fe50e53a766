//! Extension manifests: which ones load, which names may be installed, and the
//! requests the host sends to an extension's process.
use vstd::prelude::*;
use crate::extension_api::Stage;
use crate::extensions::unit_view;
use crate::json::{JsonValue, json_u64, set_member, json_get, str_eq};
use crate::text::{chars_of, push_str, is_ascii_alnum, is_ascii_alphanumeric};

verus! {

/// A tool that an extension declares in its manifest.
#[derive(Debug)]
pub struct ToolSpec {
    pub name: String,
    pub description: String,
    pub parameters: JsonValue,
    pub read_only: bool,
}

/// An extension's `extension.toml`.
#[derive(Debug)]
pub struct Manifest {
    pub api_version: u32,
    pub ui: bool,
    pub name: String,
    pub command: Vec<String>,
    pub hooks: Vec<Stage>,
    pub tools: Vec<ToolSpec>,
}

/// A manifest loads when it speaks API version 1 or 2, asks for UI only with
/// version 2, has a name and a non-empty command, and requests may take time.
pub open spec fn manifest_ok(m: Manifest, timeout_secs: u64) -> bool {
    &&& m.api_version == 1 || m.api_version == 2
    &&& !(m.ui && m.api_version != 2)
    &&& m.name@.len() > 0
    &&& m.command@.len() > 0
    &&& m.command@[0]@.len() > 0
    &&& timeout_secs != 0
}

/// An installable extension name: non-empty, letters, digits, `-` and `_` only.
pub open spec fn install_name_ok(name: Seq<char>) -> bool {
    name.len() > 0 && forall|i: int| 0 <= i < name.len() ==> is_ascii_alnum(#[trigger] name[i]) || name[i] == '-' || name[i] == '_'
}

/// The snake-case name of a stage, as manifests and requests write it.
pub open spec fn stage_name(s: Stage) -> Seq<char> {
    match s {
        Stage::TurnStart => "turn_start"@,
        Stage::BeforeModel => "before_model"@,
        Stage::AfterModel => "after_model"@,
        Stage::PreToolUse => "pre_tool_use"@,
        Stage::PostToolUse => "post_tool_use"@,
        Stage::BeforeCompact => "before_compact"@,
        Stage::AfterCompact => "after_compact"@,
        Stage::TurnEnd => "turn_end"@,
    }
}

/// The snake-case name of a stage.
pub fn stage_text(s: Stage) -> (r: &'static str)
    ensures
        r@ == stage_name(s),
{
    match s {
        Stage::TurnStart => "turn_start",
        Stage::BeforeModel => "before_model",
        Stage::AfterModel => "after_model",
        Stage::PreToolUse => "pre_tool_use",
        Stage::PostToolUse => "post_tool_use",
        Stage::BeforeCompact => "before_compact",
        Stage::AfterCompact => "after_compact",
        Stage::TurnEnd => "turn_end",
    }
}

/// The stage that a snake-case name denotes.
pub fn parse_stage(name: &str) -> (r: Option<Stage>)
    ensures
        r matches Some(s) ==> stage_name(s) == name@,
        r is None ==> forall|s: Stage| stage_name(s) != name@,
{
    let all = [
        Stage::TurnStart,
        Stage::BeforeModel,
        Stage::AfterModel,
        Stage::PreToolUse,
        Stage::PostToolUse,
        Stage::BeforeCompact,
        Stage::AfterCompact,
        Stage::TurnEnd,
    ];
    let mut i: usize = 0;
    while i < 8
        invariant
            i <= 8,
            all@ == seq![
                Stage::TurnStart,
                Stage::BeforeModel,
                Stage::AfterModel,
                Stage::PreToolUse,
                Stage::PostToolUse,
                Stage::BeforeCompact,
                Stage::AfterCompact,
                Stage::TurnEnd,
            ],
            forall|k: int| 0 <= k < i ==> stage_name(all@[k]) != name@,
        decreases 8 - i,
    {
        if str_eq(stage_text(all[i]), name) {
            return Some(all[i]);
        }
        i = i + 1;
    }
    proof {
        assert forall|s: Stage| stage_name(s) != name@ by {
            match s {
                Stage::TurnStart => assert(all@[0] == s),
                Stage::BeforeModel => assert(all@[1] == s),
                Stage::AfterModel => assert(all@[2] == s),
                Stage::PreToolUse => assert(all@[3] == s),
                Stage::PostToolUse => assert(all@[4] == s),
                Stage::BeforeCompact => assert(all@[5] == s),
                Stage::AfterCompact => assert(all@[6] == s),
                Stage::TurnEnd => assert(all@[7] == s),
            }
        }
    }
    None
}

impl Manifest {
    /// Whether the manifest loads, given the configured request timeout.
    pub fn is_valid(&self, timeout_secs: u64) -> (r: bool)
        ensures
            r == manifest_ok(*self, timeout_secs),
    {
        if !(self.api_version == 1 || self.api_version == 2) || (self.ui && self.api_version != 2) {
            return false;
        }
        if chars_of(self.name.as_str()).len() == 0 || self.command.len() == 0 {
            return false;
        }
        chars_of(self.command[0].as_str()).len() > 0 && timeout_secs != 0
    }

    /// Whether the extension publishes UI: only version 2 manifests that ask for it.
    pub fn ui_enabled(&self) -> (r: bool)
        ensures
            r == (self.api_version == 2 && self.ui),
    {
        self.api_version == 2 && self.ui
    }

    /// Whether a declared tool of this name is marked read-only.
    pub fn read_only(&self, name: &str) -> (r: bool)
        ensures
            r == exists|i: int| 0 <= i < self.tools@.len() && (#[trigger] self.tools@[i]).name@ == name@ && self.tools@[i].read_only,
    {
        let mut i: usize = 0;
        while i < self.tools.len()
            invariant
                i <= self.tools@.len(),
                forall|k: int| 0 <= k < i ==> !((#[trigger] self.tools@[k]).name@ == name@ && self.tools@[k].read_only),
            decreases self.tools@.len() - i,
        {
            if self.tools[i].read_only && str_eq(self.tools[i].name.as_str(), name) {
                return true;
            }
            i = i + 1;
        }
        false
    }

    /// Whether the extension asked to be consulted at this stage.
    pub fn handles(&self, stage: Stage) -> (r: bool)
        ensures
            r == self.hooks@.contains(stage),
    {
        let mut i: usize = 0;
        while i < self.hooks.len()
            invariant
                i <= self.hooks@.len(),
                forall|k: int| 0 <= k < i ==> self.hooks@[k] != stage,
            decreases self.hooks@.len() - i,
        {
            if self.hooks[i] == stage {
                proof {
                    assert(self.hooks@[i as int] == stage);
                }
                return true;
            }
            i = i + 1;
        }
        false
    }

    /// The names of the declared tools, in order.
    pub fn tool_names(&self) -> (r: Vec<String>)
        ensures
            r@.len() == self.tools@.len(),
            forall|i: int| 0 <= i < r@.len() ==> (#[trigger] r@[i])@ == self.tools@[i].name@,
    {
        let mut out: Vec<String> = Vec::new();
        let mut i: usize = 0;
        while i < self.tools.len()
            invariant
                i <= self.tools@.len(),
                out@.len() == i,
                forall|k: int| 0 <= k < i ==> (#[trigger] out@[k])@ == self.tools@[k].name@,
            decreases self.tools@.len() - i,
        {
            out.push(self.tools[i].name.clone());
            i = i + 1;
        }
        out
    }
}

/// Refuses a manifest that does not load, naming the manifest's path.
pub fn check_manifest(m: &Manifest, timeout_secs: u64, path: &str) -> (r: Result<(), String>)
    ensures
        unit_view(r) == (if manifest_ok(*m, timeout_secs) {
            Ok(())
        } else {
            Err::<(), Seq<char>>("invalid extension manifest: "@ + path@)
        }),
{
    if m.is_valid(timeout_secs) {
        Ok(())
    } else {
        let mut e = "invalid extension manifest: ".to_owned();
        push_str(&mut e, path);
        Err(e)
    }
}

/// Refuses an extension name that could not be a directory of its own.
pub fn check_install_name(name: &str) -> (r: Result<(), String>)
    ensures
        unit_view(r) == (if install_name_ok(name@) {
            Ok(())
        } else {
            Err::<(), Seq<char>>("extension name must contain only letters, digits, - or _"@)
        }),
{
    let cs = chars_of(name);
    let mut ok = cs.len() > 0;
    let mut i: usize = 0;
    while i < cs.len()
        invariant
            i <= cs@.len(),
            cs@ == name@,
            ok == (cs@.len() > 0 && forall|k: int| 0 <= k < i ==> is_ascii_alnum(#[trigger] cs@[k]) || cs@[k] == '-' || cs@[k] == '_'),
        decreases cs@.len() - i,
    {
        let c = cs[i];
        let good = is_ascii_alphanumeric(c) || c == '-' || c == '_';
        proof {
            if ok && !good {
                assert(!(is_ascii_alnum(cs@[i as int]) || cs@[i as int] == '-' || cs@[i as int] == '_'));
            }
        }
        ok = ok && good;
        i = i + 1;
    }
    if ok {
        Ok(())
    } else {
        Err("extension name must contain only letters, digits, - or _".to_owned())
    }
}

/// What an extension process is sent: the request, stamped with the manifest's API
/// version, and for version 2 the session and whether UI may be shown (the
/// frontend shows UI and the extension asked for it).
pub open spec fn envelope_ok(request: JsonValue, m: Manifest, session_id: Seq<char>, context_ui: bool, out: JsonValue) -> bool {
    &&& out is Object
    &&& json_get(out, "api_version"@) matches Some(JsonValue::Number(x)) && x.as_u64 == Some(m.api_version as u64)
    &&& m.api_version == 2 ==> {
        &&& json_get(out, "session_id"@) matches Some(JsonValue::Str(s)) && s@ == session_id
        &&& json_get(out, "capabilities"@) matches Some(caps)
            && json_get(caps, "ui"@) == Some(JsonValue::Bool(context_ui && m.ui))
    }
    &&& forall|k: Seq<char>| k != "api_version"@ && (m.api_version == 2 ==> k != "session_id"@ && k != "capabilities"@)
        ==> #[trigger] json_get(out, k) == json_get(request, k)
}

/// Stamps a request for an extension process.
pub fn request_envelope(request: JsonValue, m: &Manifest, session_id: &str, context_ui: bool) -> (r: JsonValue)
    requires
        request is Object || request is Null,
    ensures
        envelope_ok(request, *m, session_id@, context_ui, r),
{
    let ghost r0 = request;
    let mut out = request;
    set_member(&mut out, "api_version", json_u64(m.api_version as u64));
    if m.api_version == 2 {
        let ghost o1 = out;
        set_member(&mut out, "session_id", JsonValue::Str(session_id.to_owned()));
        let ghost o2 = out;
        let mut caps = JsonValue::Null;
        set_member(&mut caps, "ui", JsonValue::Bool(context_ui && m.ui));
        set_member(&mut out, "capabilities", caps);
        proof {
            reveal_strlit("api_version");
            reveal_strlit("session_id");
            reveal_strlit("capabilities");
            assert("api_version"@.len() == 11 && "session_id"@.len() == 10 && "capabilities"@.len() == 12);
            assert(json_get(out, "session_id"@) == json_get(o2, "session_id"@));
            assert(json_get(out, "api_version"@) == json_get(o2, "api_version"@));
            assert(json_get(o2, "api_version"@) == json_get(o1, "api_version"@));
        }
    }
    out
}

/// The request that asks an extension to answer a hook.
pub fn hook_request(stage: Stage, payload: JsonValue) -> (r: JsonValue)
    ensures
        r is Object,
        json_get(r, "kind"@) matches Some(JsonValue::Str(k)) && k@ == "hook"@,
        json_get(r, "stage"@) matches Some(JsonValue::Str(s)) && s@ == stage_name(stage),
        json_get(r, "payload"@) == Some(payload),
        json_get(r, "api_version"@) matches Some(JsonValue::Number(x)) && x.as_u64 == Some(1u64),
        forall|k: Seq<char>| k != "api_version"@ && k != "kind"@ && k != "stage"@ && k != "payload"@
            ==> #[trigger] json_get(r, k) is None,
{
    let mut r = JsonValue::Null;
    set_member(&mut r, "api_version", json_u64(1));
    let ghost r1 = r;
    set_member(&mut r, "kind", JsonValue::Str("hook".to_owned()));
    let ghost r2 = r;
    set_member(&mut r, "stage", JsonValue::Str(stage_text(stage).to_owned()));
    let ghost r3 = r;
    set_member(&mut r, "payload", payload);
    proof {
        reveal_strlit("api_version");
        reveal_strlit("kind");
        reveal_strlit("stage");
        reveal_strlit("payload");
        assert("api_version"@.len() == 11 && "kind"@.len() == 4 && "stage"@.len() == 5 && "payload"@.len() == 7);
        assert(json_get(r, "kind"@) == json_get(r3, "kind"@));
        assert(json_get(r3, "kind"@) == json_get(r2, "kind"@));
        assert(json_get(r, "stage"@) == json_get(r3, "stage"@));
        assert(json_get(r, "api_version"@) == json_get(r3, "api_version"@));
        assert(json_get(r3, "api_version"@) == json_get(r2, "api_version"@));
        assert(json_get(r2, "api_version"@) == json_get(r1, "api_version"@));
    }
    r
}

/// The request that asks an extension to run one of its tools.
pub fn tool_request(name: &str, arguments: JsonValue) -> (r: JsonValue)
    ensures
        r is Object,
        json_get(r, "kind"@) matches Some(JsonValue::Str(k)) && k@ == "tool"@,
        json_get(r, "name"@) matches Some(JsonValue::Str(s)) && s@ == name@,
        json_get(r, "arguments"@) == Some(arguments),
        json_get(r, "api_version"@) matches Some(JsonValue::Number(x)) && x.as_u64 == Some(1u64),
        forall|k: Seq<char>| k != "api_version"@ && k != "kind"@ && k != "name"@ && k != "arguments"@
            ==> #[trigger] json_get(r, k) is None,
{
    let mut r = JsonValue::Null;
    set_member(&mut r, "api_version", json_u64(1));
    let ghost r1 = r;
    set_member(&mut r, "kind", JsonValue::Str("tool".to_owned()));
    let ghost r2 = r;
    set_member(&mut r, "name", JsonValue::Str(name.to_owned()));
    let ghost r3 = r;
    set_member(&mut r, "arguments", arguments);
    proof {
        reveal_strlit("api_version");
        reveal_strlit("kind");
        reveal_strlit("name");
        reveal_strlit("arguments");
        assert("api_version"@.len() == 11 && "kind"@.len() == 4 && "name"@.len() == 4 && "arguments"@.len() == 9);
        assert("kind"@ != "name"@) by {
            assert("kind"@[0] != "name"@[0]);
        }
        assert(json_get(r, "kind"@) == json_get(r3, "kind"@));
        assert(json_get(r3, "kind"@) == json_get(r2, "kind"@));
        assert(json_get(r, "name"@) == json_get(r3, "name"@));
        assert(json_get(r, "api_version"@) == json_get(r3, "api_version"@));
        assert(json_get(r3, "api_version"@) == json_get(r2, "api_version"@));
        assert(json_get(r2, "api_version"@) == json_get(r1, "api_version"@));
    }
    r
}

} // verus!
