//! Chat-completion messages and the streaming protocol of OpenAI-compatible
//! endpoints: the wire types, the incremental SSE parser and the aggregator that
//! folds streamed deltas into one assistant message.
use vstd::prelude::*;
use crate::text::{digits, push_decimal, push_str, push_char};

pub mod sse;
pub mod aggregate;
pub mod basic;
pub mod request;

pub use sse::SseParser;
pub use aggregate::DeltaAggregator;

verus! {

/// Errors of a chat request. Transport and decoding failures keep the text that
/// their source gave.
#[derive(Debug)]
pub enum LlmError {
    Http(String),
    Api { status: u16, body: String },
    Sse(String),
    Stream(String),
    UnexpectedEof,
    EmptyResponse,
}

/// What an error carries, with its texts as character sequences.
pub enum LlmErrorView {
    Http(Seq<char>),
    Api { status: u16, body: Seq<char> },
    Sse(Seq<char>),
    Stream(Seq<char>),
    UnexpectedEof,
    EmptyResponse,
}

impl View for LlmError {
    type V = LlmErrorView;

    open spec fn view(&self) -> LlmErrorView {
        match self {
            LlmError::Http(s) => LlmErrorView::Http(s@),
            LlmError::Api { status, body } => LlmErrorView::Api { status: *status, body: body@ },
            LlmError::Sse(s) => LlmErrorView::Sse(s@),
            LlmError::Stream(s) => LlmErrorView::Stream(s@),
            LlmError::UnexpectedEof => LlmErrorView::UnexpectedEof,
            LlmError::EmptyResponse => LlmErrorView::EmptyResponse,
        }
    }
}

/// Persisted with the conversation, independently of the clipboard lifetime.
#[derive(Debug, Clone, PartialEq, Eq)]
pub struct ImageAttachment {
    pub data_url: String,
    pub width: u32,
    pub height: u32,
}

#[derive(Debug, Clone)]
pub struct FunctionCall {
    pub name: String,
    pub arguments: String,
}

#[derive(Debug, Clone)]
pub struct ToolCall {
    pub id: String,
    pub kind: String,
    pub function: FunctionCall,
}

#[derive(Debug, Clone, Default)]
pub struct Message {
    pub role: String,
    pub content: Option<String>,
    pub images: Vec<ImageAttachment>,
    pub reasoning_content: Option<String>,
    pub tool_calls: Option<Vec<ToolCall>>,
    pub tool_call_id: Option<String>,
    pub name: Option<String>,
}

/// Usage for one request, including cached input tokens in prompt_tokens.
#[derive(Debug, Clone, Copy, PartialEq, Eq)]
pub struct TokenUsage {
    pub prompt_tokens: u64,
    pub completion_tokens: u64,
}

#[derive(Debug, Clone)]
pub struct ToolCallDelta {
    pub index: usize,
    pub id: Option<String>,
    pub name: Option<String>,
    pub arguments: Option<String>,
}

pub struct ToolCallDeltaView {
    pub index: usize,
    pub id: Option<Seq<char>>,
    pub name: Option<Seq<char>>,
    pub arguments: Option<Seq<char>>,
}

pub open spec fn opt_view(o: Option<String>) -> Option<Seq<char>> {
    match o {
        Some(s) => Some(s@),
        None => None,
    }
}

impl View for ToolCallDelta {
    type V = ToolCallDeltaView;

    open spec fn view(&self) -> ToolCallDeltaView {
        ToolCallDeltaView {
            index: self.index,
            id: opt_view(self.id),
            name: opt_view(self.name),
            arguments: opt_view(self.arguments),
        }
    }
}

#[derive(Debug, Clone, Default)]
pub struct StreamDelta {
    pub usage: Option<TokenUsage>,
    pub content: Option<String>,
    pub reasoning_content: Option<String>,
    pub tool_calls: Vec<ToolCallDelta>,
}

pub struct StreamDeltaView {
    pub usage: Option<TokenUsage>,
    pub content: Option<Seq<char>>,
    pub reasoning_content: Option<Seq<char>>,
    pub tool_calls: Seq<ToolCallDeltaView>,
}

impl View for StreamDelta {
    type V = StreamDeltaView;

    open spec fn view(&self) -> StreamDeltaView {
        StreamDeltaView {
            usage: self.usage,
            content: opt_view(self.content),
            reasoning_content: opt_view(self.reasoning_content),
            tool_calls: self.tool_calls@.map_values(|t: ToolCallDelta| t@),
        }
    }
}

/// A streamed event as the parser reports it.
pub open spec fn event_view(e: Result<StreamDelta, LlmError>) -> Result<StreamDeltaView, LlmErrorView> {
    match e {
        Ok(d) => Ok(d@),
        Err(x) => Err(x@),
    }
}

/// The label that `display_content` gives the image at `index` (0-based).
pub open spec fn image_label(index: nat, image: ImageAttachment) -> Seq<char> {
    "[Image "@ + digits(index + 1) + " \u{b7} "@ + digits(image.width as nat) + "\u{d7}"@
        + digits(image.height as nat) + "]"@
}

/// The text of a message followed by one label per image, each on a line of its own.
pub open spec fn display_text(base: Seq<char>, images: Seq<ImageAttachment>) -> Seq<char>
    decreases images.len(),
{
    if images.len() == 0 {
        base
    } else {
        let before = display_text(base, images.drop_last());
        let sep = if before.len() == 0 { Seq::<char>::empty() } else { seq!['\n'] };
        before + sep + image_label((images.len() - 1) as nat, images.last())
    }
}

pub open spec fn content_text(content: Option<String>) -> Seq<char> {
    match content {
        Some(s) => s@,
        None => Seq::empty(),
    }
}

/// A message with every field absent or empty but the role and text.
pub open spec fn plain_message(m: Message, role: Seq<char>, content: Seq<char>) -> bool {
    &&& m.role@ == role
    &&& m.content matches Some(c) && c@ == content
    &&& m.images@.len() == 0
    &&& m.reasoning_content is None
    &&& m.tool_calls is None
    &&& m.name is None
}

impl Message {
    pub fn user_with_images(content: &str, images: Vec<ImageAttachment>) -> (r: Self)
        ensures
            r.role@ == "user"@,
            r.content matches Some(c) && c@ == content@,
            r.images@ == images@,
            r.reasoning_content is None,
            r.tool_calls is None,
            r.tool_call_id is None,
            r.name is None,
    {
        let mut m = Self::user(content);
        m.images = images;
        m
    }

    pub fn display_content(&self) -> (r: String)
        ensures
            r@ == display_text(content_text(self.content), self.images@),
    {
        let mut text = match &self.content {
            Some(c) => c.clone(),
            None => String::new(),
        };
        let mut i: usize = 0;
        while i < self.images.len()
            invariant
                i <= self.images@.len(),
                text@ == display_text(content_text(self.content), self.images@.take(i as int)),
            decreases self.images@.len() - i,
        {
            proof {
                assert(self.images@.take(i as int + 1).drop_last() =~= self.images@.take(i as int));
            }
            if !text.as_str().is_empty() {
                push_char(&mut text, '\n');
            }
            let image = &self.images[i];
            push_str(&mut text, "[Image ");
            push_decimal(&mut text, (i as u64) + 1);
            push_str(&mut text, " \u{b7} ");
            push_decimal(&mut text, image.width as u64);
            push_str(&mut text, "\u{d7}");
            push_decimal(&mut text, image.height as u64);
            push_str(&mut text, "]");
            proof {
                let t = self.images@.take(i as int + 1);
                assert(t.last() == self.images@[i as int]);
                assert(text@ =~= display_text(content_text(self.content), t));
            }
            i = i + 1;
        }
        proof {
            assert(self.images@.take(self.images@.len() as int) =~= self.images@);
        }
        text
    }

    pub fn system(content: &str) -> (r: Self)
        ensures
            plain_message(r, "system"@, content@),
            r.tool_call_id is None,
    {
        Message {
            role: "system".to_owned(),
            content: Some(content.to_owned()),
            images: Vec::new(),
            reasoning_content: None,
            tool_calls: None,
            tool_call_id: None,
            name: None,
        }
    }

    pub fn user(content: &str) -> (r: Self)
        ensures
            plain_message(r, "user"@, content@),
            r.tool_call_id is None,
    {
        Message {
            role: "user".to_owned(),
            content: Some(content.to_owned()),
            images: Vec::new(),
            reasoning_content: None,
            tool_calls: None,
            tool_call_id: None,
            name: None,
        }
    }

    pub fn assistant(content: &str) -> (r: Self)
        ensures
            plain_message(r, "assistant"@, content@),
            r.tool_call_id is None,
    {
        Message {
            role: "assistant".to_owned(),
            content: Some(content.to_owned()),
            images: Vec::new(),
            reasoning_content: None,
            tool_calls: None,
            tool_call_id: None,
            name: None,
        }
    }

    pub fn tool(tool_call_id: &str, content: &str) -> (r: Self)
        ensures
            plain_message(r, "tool"@, content@),
            r.tool_call_id matches Some(id) && id@ == tool_call_id@,
    {
        Message {
            role: "tool".to_owned(),
            content: Some(content.to_owned()),
            images: Vec::new(),
            reasoning_content: None,
            tool_calls: None,
            tool_call_id: Some(tool_call_id.to_owned()),
            name: None,
        }
    }
}

} // verus!
