//! YAML documents as plain values.
use vstd::prelude::*;

use crate::text::{same, told};

verus! {

/// A YAML value. A number is kept as its text.
#[derive(Debug)]
pub enum Yaml {
    Null,
    Bool(bool),
    Number(String),
    Str(String),
    Sequence(Vec<Yaml>),
    Mapping(Vec<(Yaml, Yaml)>),
    Tagged(Box<Yaml>),
}

/// What a YAML value says.
pub enum YamlView {
    Null,
    Bool(bool),
    Number(Seq<char>),
    Str(Seq<char>),
    Sequence(Seq<YamlView>),
    Mapping(Seq<(YamlView, YamlView)>),
    Tagged(Box<YamlView>),
}

impl Yaml {
    pub open spec fn shape(self) -> YamlView
        decreases self,
    {
        match self {
            Yaml::Null => YamlView::Null,
            Yaml::Bool(b) => YamlView::Bool(b),
            Yaml::Number(s) => YamlView::Number(s@),
            Yaml::Str(s) => YamlView::Str(s@),
            Yaml::Sequence(v) => YamlView::Sequence(
                Seq::new(
                    v@.len(),
                    |i: int|
                        if 0 <= i < v@.len() {
                            v@[i].shape()
                        } else {
                            YamlView::Null
                        },
                ),
            ),
            Yaml::Mapping(v) => YamlView::Mapping(
                Seq::new(
                    v@.len(),
                    |i: int|
                        if 0 <= i < v@.len() {
                            (v@[i].0.shape(), v@[i].1.shape())
                        } else {
                            (YamlView::Null, YamlView::Null)
                        },
                ),
            ),
            Yaml::Tagged(b) => YamlView::Tagged(Box::new((*b).shape())),
        }
    }
}

impl View for Yaml {
    type V = YamlView;

    open spec fn view(&self) -> YamlView {
        self.shape()
    }
}

/// A value of the `serde_yaml` crate.
#[verifier::external_type_specification]
#[verifier::external_body]
pub struct ExYamlValue(serde_yaml::Value);

/// An error of the `serde_yaml` crate.
#[verifier::external_type_specification]
#[verifier::external_body]
pub struct ExYamlError(serde_yaml::Error);

/// What a `serde_yaml::Value` holds.
pub uninterp spec fn yaml_contents(v: serde_yaml::Value) -> YamlView;

/// The text of a `serde_yaml::Error`.
pub uninterp spec fn yaml_message(e: serde_yaml::Error) -> Seq<char>;

/// What `serde_yaml::from_str` makes of a text: the value of the document, or
/// the message of the error.
pub uninterp spec fn yaml_document(text: Seq<char>) -> Result<YamlView, Seq<char>>;

/// `serde_yaml::from_str` into a `serde_yaml::Value`. What it returns is a
/// function of the text alone, here named `yaml_document`.
#[verifier::external_body]
fn read_document(text: &str) -> (r: Result<serde_yaml::Value, serde_yaml::Error>)
    ensures
        yaml_document(text@) == match r {
            Ok(v) => Ok::<YamlView, Seq<char>>(yaml_contents(v)),
            Err(e) => Err(yaml_message(e)),
        },
{
    serde_yaml::from_str::<serde_yaml::Value>(text)
}

/// `to_string` of a `serde_yaml::Error`: the message of the error.
#[verifier::external_body]
fn error_message(e: &serde_yaml::Error) -> (r: String)
    ensures
        r@ == yaml_message(*e),
{
    e.to_string()
}

/// The variants of a `serde_yaml::Value`, one for one; the entries of a mapping
/// in the order of the mapping, and a number by its `to_string`.
#[verifier::external_body]
fn contents_of(v: &serde_yaml::Value) -> (r: Yaml)
    ensures
        r@ == yaml_contents(*v),
{
    match v {
        serde_yaml::Value::Null => Yaml::Null,
        serde_yaml::Value::Bool(b) => Yaml::Bool(*b),
        serde_yaml::Value::Number(n) => Yaml::Number(n.to_string()),
        serde_yaml::Value::String(s) => Yaml::Str(s.clone()),
        serde_yaml::Value::Sequence(s) => Yaml::Sequence(s.iter().map(contents_of).collect()),
        serde_yaml::Value::Mapping(m) => Yaml::Mapping(
            m.iter().map(|(k, v)| (contents_of(k), contents_of(v))).collect(),
        ),
        serde_yaml::Value::Tagged(t) => Yaml::Tagged(Box::new(contents_of(&t.value))),
    }
}

/// Reads a YAML document.
pub fn parse_yaml(text: &str) -> (r: Result<Yaml, String>)
    ensures
        told(r) == yaml_document(text@),
{
    match read_document(text) {
        Ok(v) => Ok(contents_of(&v)),
        Err(e) => Err(error_message(&e)),
    }
}

impl YamlView {
    /// The value without its tags.
    pub open spec fn untagged(self) -> YamlView
        decreases self,
    {
        match self {
            YamlView::Tagged(b) => (*b).untagged(),
            other => other,
        }
    }

    /// The entries of a mapping, tagged or not.
    pub open spec fn mapping(self) -> Option<Seq<(YamlView, YamlView)>> {
        match self.untagged() {
            YamlView::Mapping(m) => Some(m),
            _ => None,
        }
    }

    /// The items of a sequence, tagged or not.
    pub open spec fn sequence(self) -> Option<Seq<YamlView>> {
        match self.untagged() {
            YamlView::Sequence(s) => Some(s),
            _ => None,
        }
    }
}

/// The index of the first entry whose key is a text.
pub open spec fn entry_of(m: Seq<(YamlView, YamlView)>, key: Seq<char>) -> Option<int>
    decreases m.len(),
{
    if m.len() == 0 {
        None
    } else {
        match entry_of(m.drop_last(), key) {
            Some(i) => Some(i),
            None => if m.last().0 == YamlView::Str(key) {
                Some(m.len() - 1)
            } else {
                None
            },
        }
    }
}

/// The value under a key of a mapping.
pub open spec fn value_under(m: Seq<(YamlView, YamlView)>, key: Seq<char>) -> Option<YamlView> {
    match entry_of(m, key) {
        Some(i) => Some(m[i].1),
        None => None,
    }
}

pub proof fn lemma_entry_of(m: Seq<(YamlView, YamlView)>, key: Seq<char>)
    ensures
        match entry_of(m, key) {
            Some(i) => 0 <= i < m.len() && m[i].0 == YamlView::Str(key),
            None => forall|i: int| 0 <= i < m.len() ==> (#[trigger] m[i]).0 != YamlView::Str(key),
        },
    decreases m.len(),
{
    if m.len() > 0 {
        lemma_entry_of(m.drop_last(), key);
        assert forall|i: int| 0 <= i < m.len() - 1 implies m[i] == m.drop_last()[i] by {}
    }
}

proof fn lemma_entry_of_prefix(m: Seq<(YamlView, YamlView)>, key: Seq<char>, n: int)
    requires
        0 <= n <= m.len(),
        entry_of(m.take(n), key) is Some,
    ensures
        entry_of(m, key) == entry_of(m.take(n), key),
    decreases m.len() - n,
{
    if n == m.len() {
        assert(m.take(n) =~= m);
    } else {
        assert(m.take(n + 1).drop_last() =~= m.take(n));
        lemma_entry_of_prefix(m, key, n + 1);
    }
}

/// An optional value by view.
pub open spec fn opt_yaml(v: Option<&Yaml>) -> Option<YamlView> {
    match v {
        Some(y) => Some(y@),
        None => None,
    }
}

impl Yaml {
    /// The value without its tags.
    pub fn untag(&self) -> (r: &Yaml)
        ensures
            r@ == self@.untagged(),
            !(r is Tagged),
        decreases self,
    {
        match self {
            Yaml::Tagged(b) => b.untag(),
            other => other,
        }
    }

    /// The value under a key, where this is a mapping.
    pub fn get(&self, key: &str) -> (r: Option<&Yaml>)
        ensures
            opt_yaml(r) == match self@.mapping() {
                Some(m) => value_under(m, key@),
                None => None,
            },
    {
        match self.untag() {
            Yaml::Mapping(v) => {
                let ghost m = self@.mapping()->0;
                let mut i: usize = 0;
                assert(m.take(0) =~= Seq::empty());
                while i < v.len()
                    invariant
                        i <= v@.len(),
                        v@.len() == m.len(),
                        forall|j: int|
                            0 <= j < v@.len() ==> (#[trigger] m[j]) == (v@[j].0@, v@[j].1@),
                        self@.mapping() == Some(m),
                        entry_of(m.take(i as int), key@) is None,
                    decreases v@.len() - i,
                {
                    assert(m.take(i + 1).drop_last() =~= m.take(i as int));
                    assert(m.take(i + 1).last() == m[i as int]);
                    assert(m[i as int] == (v@[i as int].0@, v@[i as int].1@));
                    let entry = &v[i];
                    if let Yaml::Str(s) = &entry.0 {
                        if same(s.as_str(), key) {
                            proof {
                                assert(entry_of(m.take(i + 1), key@) == Some(i as int));
                                lemma_entry_of_prefix(m, key@, i + 1);
                            }
                            return Some(&entry.1);
                        }
                    }
                    i += 1;
                }
                assert(m.take(i as int) =~= m);
                None
            },
            _ => None,
        }
    }

    /// The items, where this is a sequence.
    pub fn as_sequence(&self) -> (r: Option<&Vec<Yaml>>)
        ensures
            match (r, self@.sequence()) {
                (Some(v), Some(s)) => s == items(v@),
                (None, None) => true,
                _ => false,
            },
    {
        match self.untag() {
            Yaml::Sequence(v) => {
                assert(self@.sequence()->0 =~= items(v@));
                Some(v)
            },
            _ => None,
        }
    }

    pub fn is_mapping(&self) -> (r: bool)
        ensures
            r == self@.mapping() is Some,
    {
        match self.untag() {
            Yaml::Mapping(_) => true,
            _ => false,
        }
    }
}

/// The items of a list by view.
pub open spec fn items(v: Seq<Yaml>) -> Seq<YamlView> {
    Seq::new(v.len(), |i: int| v[i]@)
}

} // verus!
