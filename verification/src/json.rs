//! JSON values as plain values.
use vstd::prelude::*;

use crate::text::same;

verus! {

/// A JSON value. A number is kept where it is an unsigned 64-bit integer.
#[derive(Debug)]
pub enum Json {
    Null,
    Bool(bool),
    Number(Option<u64>),
    Str(String),
    Array(Vec<Json>),
    Object(Vec<(String, Json)>),
}

/// What a JSON value says.
pub enum JsonView {
    Null,
    Bool(bool),
    Number(Option<u64>),
    Str(Seq<char>),
    Array(Seq<JsonView>),
    Object(Seq<(Seq<char>, JsonView)>),
}

impl Json {
    pub open spec fn shape(self) -> JsonView
        decreases self,
    {
        match self {
            Json::Null => JsonView::Null,
            Json::Bool(b) => JsonView::Bool(b),
            Json::Number(n) => JsonView::Number(n),
            Json::Str(s) => JsonView::Str(s@),
            Json::Array(v) => JsonView::Array(
                Seq::new(
                    v@.len(),
                    |i: int|
                        if 0 <= i < v@.len() {
                            v@[i].shape()
                        } else {
                            JsonView::Null
                        },
                ),
            ),
            Json::Object(v) => JsonView::Object(
                Seq::new(
                    v@.len(),
                    |i: int|
                        if 0 <= i < v@.len() {
                            (v@[i].0@, v@[i].1.shape())
                        } else {
                            (Seq::empty(), JsonView::Null)
                        },
                ),
            ),
        }
    }
}

impl View for Json {
    type V = JsonView;

    open spec fn view(&self) -> JsonView {
        self.shape()
    }
}

/// A value of the `serde_json` crate.
#[verifier::external_type_specification]
#[verifier::external_body]
pub struct ExJsonValue(serde_json::Value);

/// An error of the `serde_json` crate.
#[verifier::external_type_specification]
#[verifier::external_body]
pub struct ExJsonError(serde_json::Error);

/// What a `serde_json::Value` holds.
pub uninterp spec fn json_contents(v: serde_json::Value) -> JsonView;

/// The text of a `serde_json::Error`.
pub uninterp spec fn json_message(e: serde_json::Error) -> Seq<char>;

/// What `serde_json::from_str` makes of a text that should be an array: the
/// values in it, or the message of the error.
pub uninterp spec fn json_array(text: Seq<char>) -> Result<Seq<JsonView>, Seq<char>>;

/// The contents of the values.
pub open spec fn all_contents(v: Seq<serde_json::Value>) -> Seq<JsonView> {
    Seq::new(v.len(), |i: int| json_contents(v[i]))
}

/// `serde_json::from_str` into a list of `serde_json::Value`. What it returns
/// is a function of the text alone, here named `json_array`.
#[verifier::external_body]
fn read_array(text: &str) -> (r: Result<Vec<serde_json::Value>, serde_json::Error>)
    ensures
        json_array(text@) == match r {
            Ok(v) => Ok::<Seq<JsonView>, Seq<char>>(all_contents(v@)),
            Err(e) => Err(json_message(e)),
        },
{
    serde_json::from_str::<Vec<serde_json::Value>>(text)
}

/// `to_string` of a `serde_json::Error`: the message of the error.
#[verifier::external_body]
fn error_message(e: &serde_json::Error) -> (r: String)
    ensures
        r@ == json_message(*e),
{
    e.to_string()
}

/// The variants of a `serde_json::Value`, one for one; the entries of an object
/// in the order of the object, and a number by its `as_u64`.
#[verifier::external_body]
fn contents_of(v: &serde_json::Value) -> (r: Json)
    ensures
        r@ == json_contents(*v),
{
    match v {
        serde_json::Value::Null => Json::Null,
        serde_json::Value::Bool(b) => Json::Bool(*b),
        serde_json::Value::Number(n) => Json::Number(n.as_u64()),
        serde_json::Value::String(s) => Json::Str(s.clone()),
        serde_json::Value::Array(a) => Json::Array(a.iter().map(contents_of).collect()),
        serde_json::Value::Object(m) => Json::Object(
            m.iter().map(|(k, v)| (k.clone(), contents_of(v))).collect(),
        ),
    }
}

/// The values of a list by view.
pub open spec fn json_views(v: Seq<Json>) -> Seq<JsonView> {
    Seq::new(v.len(), |i: int| v[i]@)
}

/// A list of values, or a message.
pub open spec fn array_view(r: Result<Vec<Json>, String>) -> Result<Seq<JsonView>, Seq<char>> {
    match r {
        Ok(v) => Ok(json_views(v@)),
        Err(e) => Err(e@),
    }
}

/// Reads a JSON array.
pub fn parse_json_array(text: &str) -> (r: Result<Vec<Json>, String>)
    ensures
        array_view(r) == json_array(text@),
{
    match read_array(text) {
        Err(e) => Err(error_message(&e)),
        Ok(v) => {
            let mut out: Vec<Json> = Vec::new();
            let mut i: usize = 0;
            assert(json_views(out@) =~= all_contents(v@).take(0));
            while i < v.len()
                invariant
                    i <= v@.len(),
                    json_views(out@) == all_contents(v@).take(i as int),
                decreases v@.len() - i,
            {
                let j = contents_of(&v[i]);
                let ghost before = out@;
                out.push(j);
                assert(json_views(out@) =~= json_views(before).push(j@));
                assert(all_contents(v@).take(i + 1) =~= all_contents(v@).take(i as int).push(j@));
                i += 1;
            }
            assert(all_contents(v@).take(i as int) =~= all_contents(v@));
            Ok(out)
        },
    }
}

/// The value of the first entry of a key.
pub open spec fn field(m: Seq<(Seq<char>, JsonView)>, key: Seq<char>) -> JsonView
    decreases m.len(),
{
    if m.len() == 0 {
        JsonView::Null
    } else if m[0].0 == key {
        m[0].1
    } else {
        field(m.skip(1), key)
    }
}

impl JsonView {
    /// The value under a key; null where there is none.
    pub open spec fn at(self, key: Seq<char>) -> JsonView {
        match self {
            JsonView::Object(m) => field(m, key),
            _ => JsonView::Null,
        }
    }

    /// The number, 0 where the value is no unsigned integer.
    pub open spec fn number(self) -> u64 {
        match self {
            JsonView::Number(Some(n)) => n,
            _ => 0,
        }
    }

    /// The items of an array; none where the value is no array.
    pub open spec fn items(self) -> Seq<JsonView> {
        match self {
            JsonView::Array(a) => a,
            _ => Seq::empty(),
        }
    }
}

/// An optional value by view, null where there is none.
pub open spec fn or_null(v: Option<&Json>) -> JsonView {
    match v {
        Some(j) => j@,
        None => JsonView::Null,
    }
}

impl Json {
    /// The value under a key.
    pub fn get(&self, key: &str) -> (r: Option<&Json>)
        ensures
            or_null(r) == self@.at(key@),
    {
        match self {
            Json::Object(v) => {
                let ghost m = self@->Object_0;
                let mut i: usize = 0;
                assert(m.skip(0) =~= m);
                while i < v.len()
                    invariant
                        i <= v@.len(),
                        m == self@->Object_0,
                        self@ is Object,
                        v@.len() == m.len(),
                        forall|j: int|
                            0 <= j < v@.len() ==> (#[trigger] m[j]) == (v@[j].0@, v@[j].1@),
                        field(m, key@) == field(m.skip(i as int), key@),
                    decreases v@.len() - i,
                {
                    assert(m.skip(i as int)[0] == m[i as int]);
                    assert(m.skip(i as int).skip(1) =~= m.skip(i + 1));
                    let entry = &v[i];
                    if same(entry.0.as_str(), key) {
                        return Some(&entry.1);
                    }
                    i += 1;
                }
                None
            },
            _ => None,
        }
    }

    /// The number under a key, 0 where there is none.
    pub fn number_at(&self, key: &str) -> (r: u64)
        ensures
            r == self@.at(key@).number(),
    {
        match self.get(key) {
            Some(v) => v.as_number(),
            None => 0,
        }
    }

    /// The number, 0 where the value is no unsigned integer.
    pub fn as_number(&self) -> (r: u64)
        ensures
            r == self@.number(),
    {
        match self {
            Json::Number(n) => match n {
                Some(v) => *v,
                None => 0,
            },
            _ => 0,
        }
    }
}

} // verus!
