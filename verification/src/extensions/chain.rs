//! Hooks run as ordered middleware: each extension sees the payload as the
//! extensions before it left it, and the host combines their answers.
use vstd::prelude::*;
use crate::extension_api::Response;
use crate::json::{JsonValue, json_get, set_member, take_member};
use crate::text::push_str;

verus! {

/// The combined state of a hook run: the payload that the next extension sees and
/// what the answers so far amount to.
#[derive(Debug)]
pub struct HookChain {
    payload: JsonValue,
    context: Option<String>,
    replaced: bool,
    content: Option<String>,
    is_error: bool,
}

pub open spec fn opt_view(o: Option<String>) -> Option<Seq<char>> {
    match o {
        Some(s) => Some(s@),
        None => None,
    }
}

/// The context block that an extension's context adds.
pub open spec fn context_block(name: Seq<char>, context: Seq<char>) -> Seq<char> {
    "\n[extension "@ + name + "]\n"@ + context + "\n"@
}

/// The combined context after one more answer.
pub open spec fn context_after(before: Option<Seq<char>>, name: Seq<char>, context: Option<Seq<char>>) -> Option<Seq<char>> {
    match context {
        None => before,
        Some(c) => Some(
            match before {
                Some(b) => b,
                None => Seq::empty(),
            } + context_block(name, c),
        ),
    }
}

/// What the next extension reads from the payload after an answer: replacement
/// arguments, and replacement content with its error flag, overwrite the members
/// of those names; every other member is left as it was.
pub open spec fn payload_after(before: JsonValue, r: Response, key: Seq<char>) -> Option<JsonValue> {
    if key == "arguments"@ && r.arguments is Some {
        r.arguments
    } else if key == "content"@ && r.content is Some {
        Some(JsonValue::Str(r.content->0))
    } else if key == "is_error"@ && r.content is Some {
        Some(JsonValue::Bool(r.is_error))
    } else {
        json_get(before, key)
    }
}

/// Whether an answer writes into the payload.
pub open spec fn writes(r: Response) -> bool {
    r.arguments is Some || r.content is Some
}

impl HookChain {
    pub closed spec fn payload_view(&self) -> JsonValue {
        self.payload
    }

    pub closed spec fn context_view(&self) -> Option<Seq<char>> {
        opt_view(self.context)
    }

    /// Whether some extension replaced the arguments.
    pub closed spec fn replaced_view(&self) -> bool {
        self.replaced
    }

    pub closed spec fn content_view(&self) -> Option<Seq<char>> {
        opt_view(self.content)
    }

    pub closed spec fn is_error_view(&self) -> bool {
        self.is_error
    }

    /// Replaced arguments are in the payload.
    pub open spec fn wf(&self) -> bool {
        self.replaced_view() ==> self.payload_view() is Object && json_get(self.payload_view(), "arguments"@) is Some
    }

    /// A run that has heard no answer yet.
    pub fn new(payload: JsonValue) -> (r: Self)
        ensures
            r.payload_view() == payload,
            r.context_view() is None,
            !r.replaced_view(),
            r.content_view() is None,
            !r.is_error_view(),
            r.wf(),
    {
        HookChain { payload, context: None, replaced: false, content: None, is_error: false }
    }

    /// The payload as the next extension sees it.
    pub fn payload(&self) -> (r: &JsonValue)
        ensures
            *r == self.payload_view(),
    {
        &self.payload
    }

    /// Takes in one accepted answer. Writing into the payload needs it to be an
    /// object (or `null`, which becomes one), as `serde_json`'s indexing does.
    pub fn absorb(&mut self, name: &str, r: Response)
        requires
            old(self).wf(),
            writes(r) ==> old(self).payload_view() is Object || old(self).payload_view() is Null,
        ensures
            final(self).wf(),
            final(self).context_view() == context_after(old(self).context_view(), name@, opt_view(r.context)),
            writes(r) ==> final(self).payload_view() is Object,
            !writes(r) ==> final(self).payload_view() == old(self).payload_view(),
            forall|k: Seq<char>| #[trigger] json_get(final(self).payload_view(), k) == payload_after(old(self).payload_view(), r, k),
            final(self).replaced_view() == (old(self).replaced_view() || r.arguments is Some),
            final(self).content_view() == (if r.content is Some { opt_view(r.content) } else { old(self).content_view() }),
            final(self).is_error_view() == (if r.content is Some { r.is_error } else { old(self).is_error_view() }),
    {
        let ghost p0 = self.payload;
        let ghost r0 = r;
        let Response { context, block: _, arguments, content, is_error, ui: _ } = r;
        if let Some(c) = context {
            let mut all = match self.context.take() {
                Some(b) => b,
                None => String::new(),
            };
            push_str(&mut all, "\n[extension ");
            push_str(&mut all, name);
            push_str(&mut all, "]\n");
            push_str(&mut all, c.as_str());
            push_str(&mut all, "\n");
            self.context = Some(all);
        }
        if let Some(a) = arguments {
            set_member(&mut self.payload, "arguments", a);
            self.replaced = true;
        }
        let ghost p1 = self.payload;
        if let Some(c) = content {
            proof {
                assert(p1 is Object || p1 is Null);
            }
            set_member(&mut self.payload, "content", JsonValue::Str(c.clone()));
            let ghost p2 = self.payload;
            set_member(&mut self.payload, "is_error", JsonValue::Bool(is_error));
            proof {
                reveal_strlit("arguments");
                reveal_strlit("content");
                reveal_strlit("is_error");
                assert("arguments"@.len() == 9 && "content"@.len() == 7 && "is_error"@.len() == 8);
                let p3 = self.payload;
                assert forall|k: Seq<char>| #[trigger] json_get(p3, k) == payload_after(p0, r0, k) by {
                    if k != "is_error"@ {
                        assert(json_get(p3, k) == json_get(p2, k));
                        if k != "content"@ {
                            assert(json_get(p2, k) == json_get(p1, k));
                        }
                    }
                }
            }
            self.content = Some(c);
            self.is_error = is_error;
        }
    }

    /// The combined answer: the contexts in order, the last replacement arguments,
    /// the last replacement content and its error flag.
    pub fn finish(self) -> (r: Response)
        requires
            self.wf(),
        ensures
            opt_view(r.context) == self.context_view(),
            r.block is None,
            r.arguments == (if self.replaced_view() { json_get(self.payload_view(), "arguments"@) } else { None::<JsonValue> }),
            opt_view(r.content) == self.content_view(),
            r.is_error == self.is_error_view(),
            r.ui@.len() == 0,
    {
        let HookChain { mut payload, context, replaced, content, is_error } = self;
        let arguments = if replaced {
            take_member(&mut payload, "arguments")
        } else {
            None
        };
        Response { context, block: None, arguments, content, is_error, ui: Vec::new() }
    }
}

/// Ordered middleware: after an extension replaces the arguments, every later
/// extension reads the replacement until another one replaces it, and the
/// combined answer carries the last replacement.
pub proof fn law_later_extensions_see_replacements(p0: JsonValue, r1: Response, r2: Response)
    requires
        r1.arguments is Some,
        r2.arguments is None,
    ensures
        payload_after(p0, r1, "arguments"@) == r1.arguments,
        forall|p1: JsonValue| json_get(p1, "arguments"@) == r1.arguments ==> #[trigger] payload_after(p1, r2, "arguments"@) == r1.arguments,
{
    reveal_strlit("arguments");
    reveal_strlit("content");
    reveal_strlit("is_error");
    assert("arguments"@.len() == 9 && "content"@.len() == 7 && "is_error"@.len() == 8);
}

} // verus!
