//! What a request costs in context, and how messages are prepared for the
//! endpoint that receives them.
use vstd::prelude::*;
use crate::llm::{ImageAttachment, Message};
use crate::text::{chars_of, find_from, occurs_at, lower_seq, to_ascii_lowercase, ascii_lower};
use crate::json::str_eq;

verus! {

/// `a.div_ceil(b)` for a positive divisor.
pub open spec fn ceil_div(a: int, b: int) -> int {
    (a + b - 1) / b
}

/// The long edge that a vision input is scaled against: at least 2048 pixels.
pub open spec fn long_edge(w: u32, h: u32) -> int {
    let m = if w >= h { w as int } else { h as int };
    if m >= 2048 { m } else { 2048 }
}

/// The number of 512-pixel tiles of an image scaled to a 2048-pixel long edge.
pub open spec fn image_tiles(w: u32, h: u32) -> int {
    let long = long_edge(w, h);
    ceil_div(ceil_div(w * 2048, long), 512) * ceil_div(ceil_div(h * 2048, long), 512)
}

/// The context an image is estimated to take: the original pixels are sent as
/// they are, and only the scaled tiles count.
pub open spec fn image_cost_spec(w: u32, h: u32) -> int {
    1024 + image_tiles(w, h) * 1024
}

proof fn lemma_scaled_side(x: int, long: int)
    requires
        0 <= x <= long,
        long >= 2048,
    ensures
        0 <= ceil_div(x * 2048, long) <= 2048,
        0 <= ceil_div(ceil_div(x * 2048, long), 512) <= 4,
{
    assert(x * 2048 <= long * 2048) by (nonlinear_arith)
        requires 0 <= x <= long;
    assert(0 <= x * 2048) by (nonlinear_arith)
        requires 0 <= x;
    assert((x * 2048 + long - 1) / long <= 2048) by (nonlinear_arith)
        requires 0 <= x * 2048 <= long * 2048, long >= 2048;
    assert((x * 2048 + long - 1) / long >= 0) by (nonlinear_arith)
        requires 0 <= x * 2048, long >= 2048;
}

/// An image never costs more than 17 KiB of context.
pub proof fn lemma_image_cost_bound(w: u32, h: u32)
    ensures
        1024 <= image_cost_spec(w, h) <= 17408,
{
    let long = long_edge(w, h);
    lemma_scaled_side(w as int, long);
    lemma_scaled_side(h as int, long);
    let a = ceil_div(ceil_div(w * 2048, long), 512);
    let b = ceil_div(ceil_div(h * 2048, long), 512);
    assert(0 <= a * b <= 16) by (nonlinear_arith)
        requires 0 <= a <= 4, 0 <= b <= 4;
}

/// The context estimate of one image.
pub fn image_cost(image: &ImageAttachment) -> (r: usize)
    ensures
        r == image_cost_spec(image.width, image.height),
{
    proof {
        lemma_image_cost_bound(image.width, image.height);
        lemma_scaled_side(image.width as int, long_edge(image.width, image.height));
        lemma_scaled_side(image.height as int, long_edge(image.width, image.height));
    }
    let w = image.width as u64;
    let h = image.height as u64;
    let m = if w >= h { w } else { h };
    let long = if m >= 2048 { m } else { 2048 };
    let sw = (w * 2048 + long - 1) / long;
    let sh = (h * 2048 + long - 1) / long;
    let tw = (sw + 511) / 512;
    let th = (sh + 511) / 512;
    proof {
        assert(tw * th <= 16) by (nonlinear_arith)
            requires tw <= 4, th <= 4;
    }
    let tiles = tw * th;
    (1024 + tiles * 1024) as usize
}

/// Saturating sum of image costs on top of a start value.
pub open spec fn with_images(start: int, images: Seq<ImageAttachment>) -> int
    decreases images.len(),
{
    if images.len() == 0 {
        start
    } else {
        let s = with_images(start, images.drop_last());
        let c = image_cost_spec(images.last().width, images.last().height);
        if s + c > usize::MAX { usize::MAX as int } else { s + c }
    }
}

/// The context a message is estimated to take: the length of its JSON encoding
/// without images, one more, and the estimate of each image, saturating.
pub fn message_size(json_len: usize, images: &Vec<ImageAttachment>) -> (r: usize)
    requires
        json_len < usize::MAX,
    ensures
        r == with_images(json_len + 1, images@),
{
    let mut size: usize = json_len + 1;
    let mut i: usize = 0;
    while i < images.len()
        invariant
            i <= images@.len(),
            json_len < usize::MAX,
            size == with_images(json_len + 1, images@.take(i as int)),
        decreases images@.len() - i,
    {
        let c = image_cost(&images[i]);
        proof {
            assert(images@.take(i as int + 1).drop_last() =~= images@.take(i as int));
        }
        size = size.saturating_add(c);
        i = i + 1;
    }
    proof {
        assert(images@.take(i as int) =~= images@);
    }
    size
}

/// Saturating sum of message sizes, starting at one.
pub open spec fn sizes_total(sizes: Seq<usize>) -> int
    decreases sizes.len(),
{
    if sizes.len() == 0 {
        1
    } else {
        let s = sizes_total(sizes.drop_last());
        if s + sizes.last() > usize::MAX { usize::MAX as int } else { s + sizes.last() }
    }
}

/// The context that a whole request is estimated to take.
pub fn context_size(sizes: &Vec<usize>) -> (r: usize)
    ensures
        r == sizes_total(sizes@),
{
    let mut total: usize = 1;
    let mut i: usize = 0;
    while i < sizes.len()
        invariant
            i <= sizes@.len(),
            total == sizes_total(sizes@.take(i as int)),
        decreases sizes@.len() - i,
    {
        proof {
            assert(sizes@.take(i as int + 1).drop_last() =~= sizes@.take(i as int));
        }
        total = total.saturating_add(sizes[i]);
        i = i + 1;
    }
    proof {
        assert(sizes@.take(i as int) =~= sizes@);
    }
    total
}

/// The host that `reqwest::Url::parse` finds in a URL, when it parses and has one.
pub uninterp spec fn url_host(url: Seq<char>) -> Option<Seq<char>>;

pub open spec fn host_view(r: Option<String>) -> Option<Seq<char>> {
    match r {
        Some(s) => Some(s@),
        None => None,
    }
}

/// `reqwest::Url::parse` then `host_str`, as owned text.
#[verifier::external_body]
fn parse_host(url: &str) -> (r: Option<String>)
    ensures
        host_view(r) == url_host(url@),
{
    match reqwest::Url::parse(url) {
        Ok(u) => u.host_str().map(str::to_owned),
        Err(_) => None,
    }
}

/// Whether a text contains a pattern.
pub open spec fn contains_text(s: Seq<char>, pat: Seq<char>) -> bool {
    exists|k: int| occurs_at(s, pat, k)
}

/// DeepSeek endpoints want `reasoning_content` on every assistant message: the
/// model's name says so (in any case), or the endpoint is DeepSeek's own.
pub open spec fn deepseek_endpoint(base_url: Seq<char>, model: Seq<char>) -> bool {
    contains_text(lower_seq(model), "deepseek"@) || url_host(base_url) == Some("api.deepseek.com"@)
}

/// Whether requests to this endpoint and model need the DeepSeek compatibility.
pub fn is_deepseek(base_url: &str, model: &str) -> (r: bool)
    ensures
        r == deepseek_endpoint(base_url@, model@),
{
    let m = chars_of(model);
    let mut lower: Vec<char> = Vec::new();
    let mut i: usize = 0;
    while i < m.len()
        invariant
            i <= m@.len(),
            lower@ == lower_seq(m@.take(i as int)),
        decreases m@.len() - i,
    {
        lower.push(to_ascii_lowercase(m[i]));
        proof {
            assert(lower_seq(m@.take(i as int + 1)) =~= lower_seq(m@.take(i as int)).push(ascii_lower(m@[i as int])));
        }
        i = i + 1;
    }
    proof {
        assert(m@.take(i as int) =~= m@);
    }
    let pat = chars_of("deepseek");
    let found = find_from(lower.as_slice(), pat.as_slice(), 0);
    if found.is_some() {
        return true;
    }
    proof {
        assert forall|k: int| !occurs_at(lower@, pat@, k) by {
            if k < 0 {
            }
        }
    }
    match parse_host(base_url) {
        Some(h) => str_eq(h.as_str(), "api.deepseek.com"),
        None => false,
    }
}

/// Whether a message is an assistant message without reasoning.
pub open spec fn lacks_reasoning(m: Message) -> bool {
    m.role@ == "assistant"@ && m.reasoning_content is None
}

/// A message as it is sent: for DeepSeek, an assistant message without reasoning
/// gets an empty one; everything else is kept.
pub open spec fn prepared(m: Message, out: Message, deepseek: bool) -> bool {
    &&& out.role == m.role
    &&& out.content == m.content
    &&& out.images == m.images
    &&& out.tool_calls == m.tool_calls
    &&& out.tool_call_id == m.tool_call_id
    &&& out.name == m.name
    &&& if deepseek && lacks_reasoning(m) {
        out.reasoning_content matches Some(r) && r@.len() == 0
    } else {
        out.reasoning_content == m.reasoning_content
    }
}

/// The messages as they are sent to an endpoint.
pub fn request_messages(base_url: &str, model: &str, messages: Vec<Message>) -> (r: Vec<Message>)
    ensures
        r@.len() == messages@.len(),
        forall|i: int| 0 <= i < r@.len() ==> prepared(messages@[i], #[trigger] r@[i], deepseek_endpoint(base_url@, model@)),
{
    let deepseek = is_deepseek(base_url, model);
    let ghost original = messages@;
    let mut out: Vec<Message> = Vec::new();
    let mut rest = messages;
    let n = rest.len();
    let mut i: usize = 0;
    proof {
        assert(rest@ =~= original.skip(0));
    }
    while rest.len() > 0
        invariant
            out@.len() == i,
            i + rest@.len() == original.len(),
            original.len() == n,
            rest@ == original.skip(i as int),
            deepseek == deepseek_endpoint(base_url@, model@),
            forall|k: int| 0 <= k < i ==> prepared(original[k], #[trigger] out@[k], deepseek),
        decreases rest@.len(),
    {
        let mut m = rest.remove(0);
        proof {
            assert(m == original[i as int]);
            assert(rest@ =~= original.skip(i as int + 1));
        }
        if deepseek && m.reasoning_content.is_none() && str_eq(m.role.as_str(), "assistant") {
            m.reasoning_content = Some(String::new());
        }
        out.push(m);
        i = i + 1;
    }
    out
}

} // verus!
