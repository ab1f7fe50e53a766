//! A plain model of JSON documents. Parsing and printing are done by `serde_json`;
//! everything this crate decides about a document is read from this model.
use vstd::prelude::*;

verus! {

/// A number as `serde_json` holds it: its value when it is an unsigned integer
/// that fits `u64`, and its canonical text.
#[derive(Debug)]
pub struct JsonNumber {
    pub as_u64: Option<u64>,
    pub text: String,
}

/// A JSON document. Object members keep the order and uniqueness that `serde_json`
/// gives them (keys sorted, each key once).
#[derive(Debug)]
pub enum JsonValue {
    Null,
    Bool(bool),
    Number(JsonNumber),
    Str(String),
    Array(Vec<JsonValue>),
    Object(Vec<(String, JsonValue)>),
}

/// What `serde_json::from_str::<serde_json::Value>` makes of a text: the document,
/// or the text of its error.
pub uninterp spec fn json_parse(text: Seq<char>) -> Result<JsonValue, Seq<char>>;

/// The compact text that `serde_json` prints for a document.
pub uninterp spec fn json_text(v: JsonValue) -> Seq<char>;

pub open spec fn parse_result_view(r: Result<JsonValue, String>) -> Result<JsonValue, Seq<char>> {
    match r {
        Ok(v) => Ok(v),
        Err(e) => Err(e@),
    }
}

/// `serde_json::Value`, carried only between `serde_json` and the converters below.
#[verifier::external_type_specification]
#[verifier::external_body]
pub struct ExSerdeValue(serde_json::Value);

/// Converts a `serde_json` document into the model, member for member.
#[verifier::external_body]
fn from_serde(v: serde_json::Value) -> JsonValue {
    match v {
        serde_json::Value::Null => JsonValue::Null,
        serde_json::Value::Bool(b) => JsonValue::Bool(b),
        serde_json::Value::Number(n) => JsonValue::Number(
            JsonNumber { as_u64: n.as_u64(), text: n.to_string() },
        ),
        serde_json::Value::String(s) => JsonValue::Str(s),
        serde_json::Value::Array(a) => JsonValue::Array(a.into_iter().map(from_serde).collect()),
        serde_json::Value::Object(m) => JsonValue::Object(
            m.into_iter().map(|(k, v)| (k, from_serde(v))).collect(),
        ),
    }
}

/// Converts the model back into a `serde_json` document, member for member.
#[verifier::external_body]
fn to_serde(v: &JsonValue) -> serde_json::Value {
    match v {
        JsonValue::Null => serde_json::Value::Null,
        JsonValue::Bool(b) => serde_json::Value::Bool(*b),
        JsonValue::Number(n) => n.text.parse().map_or(serde_json::Value::Null, serde_json::Value::Number),
        JsonValue::Str(s) => serde_json::Value::String(s.clone()),
        JsonValue::Array(a) => serde_json::Value::Array(a.iter().map(to_serde).collect()),
        JsonValue::Object(m) => serde_json::Value::Object(
            m.iter().map(|(k, v)| (k.clone(), to_serde(v))).collect(),
        ),
    }
}

/// `serde_json::from_str` into a `serde_json::Value`; the contract names its result
/// (the document or the error text) `json_parse` of the input.
#[verifier::external_body]
pub(crate) fn parse_json(text: &str) -> (r: Result<JsonValue, String>)
    ensures
        parse_result_view(r) == json_parse(text@),
{
    serde_json::from_str::<serde_json::Value>(text).map(from_serde).map_err(|e| e.to_string())
}

/// `serde_json::Value::to_string`; the contract names its result `json_text` of the
/// document.
#[verifier::external_body]
pub(crate) fn to_json_text(v: &JsonValue) -> (r: String)
    ensures
        r@ == json_text(*v),
{
    to_serde(v).to_string()
}

/// Member lookup: the value of the first member named `key`.
pub open spec fn members_get(fields: Seq<(String, JsonValue)>, key: Seq<char>) -> Option<JsonValue>
    decreases fields.len(),
{
    if fields.len() == 0 {
        None
    } else if fields[0].0@ == key {
        Some(fields[0].1)
    } else {
        members_get(fields.drop_first(), key)
    }
}

/// `Value::get` with a string key: only objects have members.
pub open spec fn json_get(v: JsonValue, key: Seq<char>) -> Option<JsonValue> {
    match v {
        JsonValue::Object(fields) => members_get(fields@, key),
        _ => None,
    }
}

/// `Value::as_str`.
pub open spec fn json_str(v: Option<JsonValue>) -> Option<Seq<char>> {
    match v {
        Some(JsonValue::Str(s)) => Some(s@),
        _ => None,
    }
}

/// The string member `key`, if there is one.
pub open spec fn get_str(v: JsonValue, key: Seq<char>) -> Option<Seq<char>> {
    json_str(json_get(v, key))
}

pub fn str_eq(a: &str, b: &str) -> (r: bool)
    ensures
        r == (a@ == b@),
{
    a.to_owned() == b.to_owned()
}

impl JsonValue {
    pub fn get(&self, key: &str) -> (r: Option<&JsonValue>)
        ensures
            r is None <==> json_get(*self, key@) is None,
            r matches Some(x) ==> json_get(*self, key@) == Some(*x),
    {
        match self {
            JsonValue::Object(fields) => {
                let mut i: usize = 0;
                assert(fields@.skip(0) =~= fields@);
                while i < fields.len()
                    invariant
                        i <= fields@.len(),
                        json_get(*self, key@) == members_get(fields@, key@),
                        members_get(fields@, key@) == members_get(fields@.skip(i as int), key@),
                    decreases fields@.len() - i,
                {
                    proof {
                        assert(fields@.skip(i as int).drop_first() =~= fields@.skip(i + 1));
                        assert(fields@.skip(i as int)[0] == fields@[i as int]);
                    }
                    if str_eq(fields[i].0.as_str(), key) {
                        return Some(&fields[i].1);
                    }
                    i = i + 1;
                }
                None
            },
            _ => None,
        }
    }

    pub fn as_str(&self) -> (r: Option<&str>)
        ensures
            r is None <==> json_str(Some(*self)) is None,
            r matches Some(s) ==> json_str(Some(*self)) == Some(s@),
    {
        match self {
            JsonValue::Str(s) => Some(s.as_str()),
            _ => None,
        }
    }

    pub fn is_null(&self) -> (r: bool)
        ensures
            r == (*self is Null),
    {
        match self {
            JsonValue::Null => true,
            _ => false,
        }
    }
}

/// The string member `key` of `v`, if there is one.
pub fn str_member<'a>(v: &'a JsonValue, key: &str) -> (r: Option<&'a str>)
    ensures
        r is None <==> get_str(*v, key@) is None,
        r matches Some(s) ==> get_str(*v, key@) == Some(s@),
{
    match v.get(key) {
        Some(x) => x.as_str(),
        None => None,
    }
}

/// The position of the first member named `key`.
pub open spec fn member_index(fields: Seq<(String, JsonValue)>, key: Seq<char>) -> Option<int>
    decreases fields.len(),
{
    if fields.len() == 0 {
        None
    } else if fields[0].0@ == key {
        Some(0)
    } else {
        match member_index(fields.drop_first(), key) {
            Some(i) => Some(i + 1),
            None => None,
        }
    }
}

/// `member_index` is the first position whose key matches, and `members_get` reads there.
pub proof fn lemma_member_index(fields: Seq<(String, JsonValue)>, key: Seq<char>)
    ensures
        match member_index(fields, key) {
            Some(i) => 0 <= i < fields.len() && fields[i].0@ == key
                && (forall|j: int| 0 <= j < i ==> fields[j].0@ != key)
                && members_get(fields, key) == Some(fields[i].1),
            None => (forall|j: int| 0 <= j < fields.len() ==> fields[j].0@ != key)
                && members_get(fields, key) is None,
        },
    decreases fields.len(),
{
    if fields.len() > 0 {
        lemma_member_index(fields.drop_first(), key);
        if fields[0].0@ != key {
            match member_index(fields.drop_first(), key) {
                Some(i) => {
                    assert forall|j: int| 0 <= j < i + 1 implies fields[j].0@ != key by {
                        if j > 0 {
                            assert(fields[j] == fields.drop_first()[j - 1]);
                        }
                    }
                },
                None => {
                    assert forall|j: int| 0 <= j < fields.len() implies fields[j].0@ != key by {
                        if j > 0 {
                            assert(fields[j] == fields.drop_first()[j - 1]);
                        }
                    }
                },
            }
        }
    }
}

/// A position whose key is the first match is the one `member_index` finds.
pub proof fn lemma_member_index_at(fields: Seq<(String, JsonValue)>, key: Seq<char>, i: int)
    requires
        0 <= i < fields.len(),
        fields[i].0@ == key,
        forall|j: int| 0 <= j < i ==> fields[j].0@ != key,
    ensures
        member_index(fields, key) == Some(i),
        members_get(fields, key) == Some(fields[i].1),
{
    lemma_member_index(fields, key);
    match member_index(fields, key) {
        Some(k) => {
            if k < i {
                assert(fields[k].0@ != key);
            } else if k > i {
                assert(fields[i].0@ != key);
            }
        },
        None => {
            assert(fields[i].0@ != key);
        },
    }
}

/// With no member named `key`, there is nothing to read.
pub proof fn lemma_member_absent(fields: Seq<(String, JsonValue)>, key: Seq<char>)
    requires
        forall|j: int| 0 <= j < fields.len() ==> fields[j].0@ != key,
    ensures
        member_index(fields, key) is None,
        members_get(fields, key) is None,
{
    lemma_member_index(fields, key);
    if let Some(k) = member_index(fields, key) {
        assert(fields[k].0@ != key);
    }
}

/// Reading a member after writing it gives back what was written, and every other
/// member reads as before.
pub open spec fn written(before: JsonValue, after: JsonValue, key: Seq<char>, value: JsonValue) -> bool {
    &&& after is Object
    &&& json_get(after, key) == Some(value)
    &&& forall|k: Seq<char>| k != key ==> #[trigger] json_get(after, k) == json_get(before, k)
}

/// What is read from a document after the member named `key` was taken out.
pub open spec fn removed(before: JsonValue, after: JsonValue, key: Seq<char>) -> bool {
    &&& after is Object
    &&& forall|k: Seq<char>| k != key ==> #[trigger] json_get(after, k) == json_get(before, k)
}

/// The key position that any lookup of another key skips over unchanged: members
/// with the same keys, in the same order, are found at the same places.
proof fn lemma_same_keys(f: Seq<(String, JsonValue)>, g: Seq<(String, JsonValue)>, k: Seq<char>)
    requires
        f.len() == g.len(),
        forall|j: int| 0 <= j < f.len() ==> (#[trigger] f[j]).0@ == g[j].0@,
    ensures
        member_index(f, k) == member_index(g, k),
{
    lemma_member_index(f, k);
    lemma_member_index(g, k);
    assert forall|j: int| 0 <= j < g.len() implies (g[j].0@ == k <==> f[j].0@ == k) by {
        assert(f[j].0@ == g[j].0@);
    }
    match member_index(f, k) {
        Some(i) => lemma_member_index_at(g, k, i),
        None => lemma_member_absent(g, k),
    }
}

/// `value[key] = member` for an object (or `null`, which becomes an object), as
/// `serde_json`'s `IndexMut` does: the member named `key` is replaced, or added.
pub fn set_member(v: &mut JsonValue, key: &str, member: JsonValue)
    requires
        *old(v) is Object || *old(v) is Null,
    ensures
        written(*old(v), *final(v), key@, member),
{
    let mut cur = JsonValue::Null;
    std::mem::swap(v, &mut cur);
    let ghost before = cur;
    match cur {
        JsonValue::Object(mut fields) => {
            let ghost f = fields@;
            let mut i: usize = 0;
            let mut found = false;
            while !found && i < fields.len()
                invariant
                    i <= fields@.len(),
                    f == fields@,
                    forall|j: int| 0 <= j < i ==> fields@[j].0@ != key@,
                    found ==> i < fields@.len() && fields@[i as int].0@ == key@,
                decreases fields@.len() - i + (if found { 0int } else { 1int }),
            {
                if str_eq(fields[i].0.as_str(), key) {
                    found = true;
                } else {
                    i = i + 1;
                }
            }
            if found {
                let name = fields[i].0.clone();
                fields.set(i, (name, member));
                proof {
                    let g = fields@;
                    lemma_member_index_at(g, key@, i as int);
                    assert forall|k: Seq<char>| k != key@ implies #[trigger] members_get(g, k) == members_get(f, k) by {
                        lemma_same_keys(f, g, k);
                        lemma_member_index(f, k);
                        lemma_member_index(g, k);
                        if let Some(m) = member_index(f, k) {
                            assert(m != i);
                        }
                    }
                }
                *v = JsonValue::Object(fields);
            } else {
                fields.push((key.to_owned(), member));
                proof {
                    let g = fields@;
                    assert(g.len() == f.len() + 1);
                    assert forall|j: int| 0 <= j < i implies g[j].0@ != key@ by {
                        assert(g[j] == f[j]);
                    }
                    lemma_member_index_at(g, key@, i as int);
                    assert forall|k: Seq<char>| k != key@ implies #[trigger] members_get(g, k) == members_get(f, k) by {
                        lemma_member_index(f, k);
                        lemma_member_index(g, k);
                        match member_index(f, k) {
                            Some(m) => {
                                assert forall|j: int| 0 <= j < m implies g[j].0@ != k by {
                                    assert(g[j] == f[j]);
                                }
                                assert(g[m] == f[m]);
                                lemma_member_index_at(g, k, m);
                            },
                            None => {
                                assert forall|j: int| 0 <= j < g.len() implies g[j].0@ != k by {
                                    if j < f.len() {
                                        assert(g[j] == f[j]);
                                    }
                                }
                                lemma_member_absent(g, k);
                            },
                        }
                    }
                }
                *v = JsonValue::Object(fields);
            }
        },
        _ => {
            let fields = vec![(key.to_owned(), member)];
            proof {
                lemma_member_index_at(fields@, key@, 0);
                assert forall|k: Seq<char>| k != key@ implies #[trigger] members_get(fields@, k) is None by {
                    lemma_member_absent(fields@, k);
                }
            }
            *v = JsonValue::Object(fields);
        },
    }
}

/// `Map::remove` on an object's members: the member named `key` is taken out and
/// returned, when there is one.
pub fn take_member(v: &mut JsonValue, key: &str) -> (r: Option<JsonValue>)
    requires
        *old(v) is Object,
    ensures
        r == json_get(*old(v), key@),
        removed(*old(v), *final(v), key@),
{
    let mut cur = JsonValue::Null;
    std::mem::swap(v, &mut cur);
    match cur {
        JsonValue::Object(mut fields) => {
            let ghost f = fields@;
            let mut i: usize = 0;
            let mut found = false;
            while !found && i < fields.len()
                invariant
                    i <= fields@.len(),
                    f == fields@,
                    forall|j: int| 0 <= j < i ==> fields@[j].0@ != key@,
                    found ==> i < fields@.len() && fields@[i as int].0@ == key@,
                decreases fields@.len() - i + (if found { 0int } else { 1int }),
            {
                if str_eq(fields[i].0.as_str(), key) {
                    found = true;
                } else {
                    i = i + 1;
                }
            }
            if found {
                let (_, taken) = fields.remove(i);
                proof {
                    lemma_member_index_at(f, key@, i as int);
                    let g = fields@;
                    assert(g =~= f.remove(i as int));
                    assert forall|k: Seq<char>| k != key@ implies #[trigger] members_get(g, k) == members_get(f, k) by {
                        lemma_member_index(f, k);
                        match member_index(f, k) {
                            Some(m) => {
                                assert(m != i);
                                if m < i {
                                    assert forall|j: int| 0 <= j < m implies g[j].0@ != k by {
                                        assert(g[j] == f[j]);
                                    }
                                    assert(g[m] == f[m]);
                                    lemma_member_index_at(g, k, m);
                                } else {
                                    assert forall|j: int| 0 <= j < m - 1 implies g[j].0@ != k by {
                                        if j < i {
                                            assert(g[j] == f[j]);
                                        } else {
                                            assert(g[j] == f[j + 1]);
                                        }
                                    }
                                    assert(g[m - 1] == f[m]);
                                    lemma_member_index_at(g, k, m - 1);
                                }
                            },
                            None => {
                                assert forall|j: int| 0 <= j < g.len() implies g[j].0@ != k by {
                                    if j < i {
                                        assert(g[j] == f[j]);
                                    } else {
                                        assert(g[j] == f[j + 1]);
                                    }
                                }
                                lemma_member_absent(g, k);
                            },
                        }
                    }
                }
                *v = JsonValue::Object(fields);
                Some(taken)
            } else {
                proof {
                    lemma_member_absent(f, key@);
                }
                *v = JsonValue::Object(fields);
                None
            }
        },
        _ => {
            *v = cur;
            None
        },
    }
}

/// The JSON number of an unsigned integer, as `serde_json` writes it.
pub fn json_u64(n: u64) -> (r: JsonValue)
    ensures
        r matches JsonValue::Number(x) && x.as_u64 == Some(n) && x.text@ == crate::text::digits(n as nat),
{
    JsonValue::Number(JsonNumber { as_u64: Some(n), text: crate::text::decimal(n) })
}

/// A member written into a document reads back as written, and a second write of
/// the same key replaces the first, whatever the order of the documents' members.
pub proof fn law_member_read_after_write(
    a: JsonValue,
    b: JsonValue,
    c: JsonValue,
    key: Seq<char>,
    other: Seq<char>,
    x: JsonValue,
    y: JsonValue,
)
    requires
        written(a, b, key, x),
        written(b, c, key, y),
        other != key,
    ensures
        json_get(b, key) == Some(x),
        json_get(c, key) == Some(y),
        json_get(c, other) == json_get(a, other),
{
    assert(json_get(c, other) == json_get(b, other));
    assert(json_get(b, other) == json_get(a, other));
}

} // verus!
