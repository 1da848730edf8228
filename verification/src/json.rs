//! A JSON value model: the parts of a parsed JSON document that the
//! metadata extraction reads.

use vstd::prelude::*;
use crate::text::{chars_of, eq_chars};

verus! {

/// A JSON integer: one that fits `u64`, or a negative one that fits `i64`.
#[derive(Debug, Clone, Copy, PartialEq, Eq, Structural)]
pub enum JsonNumber {
    PosInt(u64),
    NegInt(i64),
}

/// A JSON value. Objects hold their members in the order they were given.
#[derive(Debug)]
pub enum JsonValue {
    Null,
    Bool(bool),
    Number(JsonNumber),
    /// Any other number, by its text as `serde_json` writes it (`1.5`,
    /// `1e+300`).
    Float(String),
    String(String),
    Array(Vec<JsonValue>),
    Object(Vec<(String, JsonValue)>),
}

/// The mathematical content of a JSON value.
pub ghost enum JsonView {
    Null,
    Bool(bool),
    Number(JsonNumber),
    Float(Seq<char>),
    Str(Seq<char>),
    Array(Seq<JsonView>),
    Object(Seq<(Seq<char>, JsonView)>),
}

pub open spec fn json_view(v: JsonValue) -> JsonView
    decreases v,
{
    match v {
        JsonValue::Null => JsonView::Null,
        JsonValue::Bool(b) => JsonView::Bool(b),
        JsonValue::Number(n) => JsonView::Number(n),
        JsonValue::Float(d) => JsonView::Float(d@),
        JsonValue::String(s) => JsonView::Str(s@),
        JsonValue::Array(items) => JsonView::Array(json_views(items@)),
        JsonValue::Object(entries) => JsonView::Object(member_views(entries@)),
    }
}

pub open spec fn json_views(s: Seq<JsonValue>) -> Seq<JsonView>
    decreases s,
{
    if s.len() == 0 {
        seq![]
    } else {
        seq![json_view(s[0])] + json_views(s.drop_first())
    }
}

pub open spec fn member_views(s: Seq<(String, JsonValue)>) -> Seq<(Seq<char>, JsonView)>
    decreases s,
{
    if s.len() == 0 {
        seq![]
    } else {
        seq![(s[0].0@, json_view(s[0].1))] + member_views(s.drop_first())
    }
}

impl View for JsonValue {
    type V = JsonView;

    open spec fn view(&self) -> JsonView {
        json_view(*self)
    }
}

/// The value of the first member named `key`.
pub open spec fn lookup(members: Seq<(Seq<char>, JsonView)>, key: Seq<char>) -> Option<JsonView>
    decreases members.len(),
{
    if members.len() == 0 {
        None
    } else if members[0].0 == key {
        Some(members[0].1)
    } else {
        lookup(members.drop_first(), key)
    }
}

impl JsonView {
    /// `Value::get` with a string key: the member of an object, or nothing.
    pub open spec fn get(self, key: Seq<char>) -> Option<JsonView> {
        match self {
            JsonView::Object(m) => lookup(m, key),
            _ => None,
        }
    }

    /// `Value::as_u64`.
    pub open spec fn as_u64(self) -> Option<u64> {
        match self {
            JsonView::Number(JsonNumber::PosInt(n)) => Some(n),
            _ => None,
        }
    }

    /// `Value::as_str`.
    pub open spec fn as_str(self) -> Option<Seq<char>> {
        match self {
            JsonView::Str(s) => Some(s),
            _ => None,
        }
    }

    /// The members, if an object.
    pub open spec fn members(self) -> Option<Seq<(Seq<char>, JsonView)>> {
        match self {
            JsonView::Object(m) => Some(m),
            _ => None,
        }
    }

    /// The elements, if an array.
    pub open spec fn items(self) -> Option<Seq<JsonView>> {
        match self {
            JsonView::Array(a) => Some(a),
            _ => None,
        }
    }
}

pub proof fn lemma_json_views(s: Seq<JsonValue>)
    ensures
        json_views(s).len() == s.len(),
        forall|i: int| 0 <= i < s.len() ==> #[trigger] json_views(s)[i] == json_view(s[i]),
    decreases s.len(),
{
    if s.len() > 0 {
        lemma_json_views(s.drop_first());
        assert forall|i: int| 0 <= i < s.len() implies #[trigger] json_views(s)[i] == json_view(
            s[i],
        ) by {
            if i > 0 {
                assert(json_views(s)[i] == json_views(s.drop_first())[i - 1]);
            }
        }
    }
}

pub proof fn lemma_member_views(s: Seq<(String, JsonValue)>)
    ensures
        member_views(s).len() == s.len(),
        forall|i: int|
            0 <= i < s.len() ==> #[trigger] member_views(s)[i] == (s[i].0@, json_view(s[i].1)),
    decreases s.len(),
{
    if s.len() > 0 {
        lemma_member_views(s.drop_first());
        assert forall|i: int| 0 <= i < s.len() implies #[trigger] member_views(s)[i] == (
            s[i].0@,
            json_view(s[i].1),
        ) by {
            if i > 0 {
                assert(member_views(s)[i] == member_views(s.drop_first())[i - 1]);
            }
        }
    }
}

proof fn lemma_member_views_skip(s: Seq<(String, JsonValue)>, i: int)
    requires
        0 <= i <= s.len(),
    ensures
        member_views(s.skip(i)) == member_views(s).skip(i),
{
    lemma_member_views(s);
    lemma_member_views(s.skip(i));
    assert(member_views(s.skip(i)) =~= member_views(s).skip(i));
}

impl JsonValue {
    /// The member named `key`, if `self` is an object that has one.
    pub fn get(&self, key: &str) -> (r: Option<&JsonValue>)
        ensures
            match r {
                Some(v) => self@.get(key@) == Some(v@),
                None => self@.get(key@) is None,
            },
    {
        match self {
            JsonValue::Object(entries) => {
                let k = chars_of(key);
                let mut i: usize = 0;
                proof {
                    lemma_member_views_skip(entries@, 0);
                    assert(entries@.skip(0) =~= entries@);
                }
                while i < entries.len()
                    invariant
                        i <= entries@.len(),
                        k@ == key@,
                        self@.get(key@) == lookup(member_views(entries@), key@),
                        lookup(member_views(entries@), key@) == lookup(
                            member_views(entries@.skip(i as int)),
                            key@,
                        ),
                    decreases entries@.len() - i,
                {
                    proof {
                        lemma_member_views_skip(entries@, i as int);
                        lemma_member_views_skip(entries@, i + 1);
                        lemma_member_views(entries@);
                    }
                    let ghost m = member_views(entries@.skip(i as int));
                    assert(m[0] == member_views(entries@)[i as int]);
                    if eq_chars(&chars_of(entries[i].0.as_str()), &k) {
                        return Some(&entries[i].1);
                    }
                    assert(m.drop_first() =~= member_views(entries@.skip(i + 1)));
                    i = i + 1;
                }
                proof {
                    lemma_member_views_skip(entries@, i as int);
                }
                None
            },
            _ => None,
        }
    }

    /// The number, if `self` is a non-negative integer (`Value::as_u64`).
    pub fn as_u64(&self) -> (r: Option<u64>)
        ensures
            r == self@.as_u64(),
    {
        match self {
            JsonValue::Number(JsonNumber::PosInt(n)) => Some(*n),
            _ => None,
        }
    }

    /// The text, if `self` is a string (`Value::as_str`).
    pub fn as_str(&self) -> (r: Option<&str>)
        ensures
            match r {
                Some(s) => self@.as_str() == Some(s@),
                None => self@.as_str() is None,
            },
    {
        match self {
            JsonValue::String(s) => Some(s.as_str()),
            _ => None,
        }
    }

    /// The elements, if `self` is an array (`Value::as_array`).
    pub fn as_array(&self) -> (r: Option<&Vec<JsonValue>>)
        ensures
            match r {
                Some(a) => self@.items() == Some(json_views(a@)),
                None => self@.items() is None,
            },
    {
        match self {
            JsonValue::Array(a) => Some(a),
            _ => None,
        }
    }

    /// Whether `self` is an object.
    pub fn is_object(&self) -> (b: bool)
        ensures
            b == (self@.members() is Some),
    {
        match self {
            JsonValue::Object(_) => true,
            _ => false,
        }
    }
}

/// `serde_json`'s value, carried from the parse into the library's model.
#[verifier::external_type_specification]
#[verifier::external_body]
pub struct ExSerdeJsonValue(serde_json::Value);

/// `serde_json`'s number, carried into the library's model.
#[verifier::external_type_specification]
#[verifier::external_body]
pub struct ExSerdeJsonNumber(serde_json::Number);

/// Converts a `serde_json` number into the library's model: `PosInt` when
/// `as_u64` gives it, else `NegInt` when `as_i64` does, else `Float` with
/// the number's text (`Number::to_string`). Nothing is claimed of it on its
/// own; the parse that uses it is named as a whole by [`json_of_text`].
#[verifier::external_body]
fn json_from_serde_number(n: &serde_json::Number) -> JsonValue {
    match (n.as_u64(), n.as_i64()) {
        (Some(u), _) => JsonValue::Number(JsonNumber::PosInt(u)),
        (None, Some(i)) => JsonValue::Number(JsonNumber::NegInt(i)),
        _ => JsonValue::Float(n.to_string()),
    }
}

/// Converts a `serde_json` value into the library's model, one variant for
/// one. Nothing is claimed of it on its own; the parse that uses it is
/// named as a whole by [`json_of_text`].
#[verifier::external_body]
fn json_from_serde(v: &serde_json::Value) -> JsonValue {
    match v {
        serde_json::Value::Null => JsonValue::Null,
        serde_json::Value::Bool(b) => JsonValue::Bool(*b),
        serde_json::Value::Number(n) => json_from_serde_number(n),
        serde_json::Value::String(s) => JsonValue::String(s.clone()),
        serde_json::Value::Array(a) => JsonValue::Array(a.iter().map(json_from_serde).collect()),
        serde_json::Value::Object(m) => JsonValue::Object(
            m.iter().map(|(k, x)| (k.clone(), json_from_serde(x))).collect(),
        ),
    }
}

/// What parsing a text as JSON gives (`serde_json::from_str` into
/// `serde_json::Value`, in the library's model): the value, or the parse
/// error's message.
pub uninterp spec fn json_of_text(text: Seq<char>) -> Result<JsonView, Seq<char>>;

/// Parses a text with `serde_json::from_str::<serde_json::Value>` and
/// converts the value into the library's model, or gives the error's
/// message. Claimed: the outcome is the fixed function `json_of_text` of
/// the text.
#[verifier::external_body]
pub fn parse_json_text(text: &str) -> (r: Result<JsonValue, String>)
    ensures
        match r {
            Ok(v) => json_of_text(text@) == Ok::<JsonView, Seq<char>>(v@),
            Err(m) => json_of_text(text@) == Err::<JsonView, Seq<char>>(m@),
        },
{
    match serde_json::from_str::<serde_json::Value>(text) {
        Ok(v) => Ok(json_from_serde(&v)),
        Err(e) => Err(e.to_string()),
    }
}

} // verus!
