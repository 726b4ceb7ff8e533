//! A JSON document as the library reads it: the same tree a manifest, a webhook payload or
//! a LinkML source parses into, with numbers kept as the text the document wrote.

use vstd::prelude::*;
use crate::text::{chars_of, seq_eq};

verus! {

/// One JSON value. An object keeps its members in document order.
#[derive(Debug, PartialEq)]
pub enum JsonValue {
    Null,
    Bool(bool),
    /// A number, as its text.
    Number(String),
    Str(String),
    Array(Vec<JsonValue>),
    Object(Vec<(String, JsonValue)>),
}

/// The value of the first member named `key`.
pub open spec fn member(m: Seq<(String, JsonValue)>, key: Seq<char>) -> Option<JsonValue>
    decreases m.len(),
{
    if m.len() == 0 {
        None
    } else if m[0].0@ == key {
        Some(m[0].1)
    } else {
        member(m.drop_first(), key)
    }
}

/// `value.get(key)`: the member of an object, `None` for anything else.
pub open spec fn get(v: JsonValue, key: Seq<char>) -> Option<JsonValue> {
    match v {
        JsonValue::Object(m) => member(m@, key),
        _ => None,
    }
}

/// `Value::as_str` on an optional value.
pub open spec fn text_of_opt(v: Option<JsonValue>) -> Option<Seq<char>> {
    match v {
        Some(JsonValue::Str(s)) => Some(s@),
        _ => None,
    }
}

/// `Value::as_bool` on an optional value.
pub open spec fn bool_of_opt(v: Option<JsonValue>) -> Option<bool> {
    match v {
        Some(JsonValue::Bool(b)) => Some(b),
        _ => None,
    }
}

/// `get(key).and_then(as_str)`.
pub open spec fn get_text(v: JsonValue, key: Seq<char>) -> Option<Seq<char>> {
    text_of_opt(get(v, key))
}

pub open spec fn is_object(v: JsonValue) -> bool {
    v is Object
}

/// The value of the first member named `key`.
pub fn lookup<'a>(m: &'a Vec<(String, JsonValue)>, key: &[char]) -> (r: Option<&'a JsonValue>)
    ensures
        match r {
            Some(x) => member(m@, key@) == Some(*x),
            None => member(m@, key@) is None,
        },
{
    let mut i: usize = 0;
    assert(m@.subrange(0, m@.len() as int) =~= m@);
    while i < m.len()
        invariant
            i <= m@.len(),
            member(m@, key@) == member(m@.subrange(i as int, m@.len() as int), key@),
        decreases m.len() - i,
    {
        let ghost rest = m@.subrange(i as int, m@.len() as int);
        assert(rest.drop_first() =~= m@.subrange(i + 1, m@.len() as int));
        let name = chars_of(m[i].0.as_str());
        if seq_eq(name.as_slice(), key) {
            assert(rest[0] == m@[i as int]);
            return Some(&m[i].1);
        }
        i = i + 1;
    }
    None
}

/// The members of the object under `key`, none when there is no such object.
pub open spec fn members_at(v: JsonValue, key: Seq<char>) -> Seq<(String, JsonValue)> {
    match get(v, key) {
        Some(JsonValue::Object(m)) => m@,
        _ => Seq::empty(),
    }
}

/// The string items of a list, in order, everything else skipped.
pub open spec fn strings_in(items: Seq<JsonValue>) -> Seq<Seq<char>>
    decreases items.len(),
{
    if items.len() == 0 {
        Seq::empty()
    } else {
        let rest = strings_in(items.drop_last());
        match items.last() {
            JsonValue::Str(s) => rest.push(s@),
            _ => rest,
        }
    }
}

/// `get(key).and_then(as_array)`, its string items.
pub open spec fn strings_at(v: JsonValue, key: Seq<char>) -> Seq<Seq<char>> {
    match get(v, key) {
        Some(JsonValue::Array(a)) => strings_in(a@),
        _ => Seq::empty(),
    }
}

pub open spec fn views(v: Seq<String>) -> Seq<Seq<char>> {
    v.map_values(|s: String| s@)
}

/// The string items of a list.
pub fn strings_of(items: &Vec<JsonValue>) -> (out: Vec<String>)
    ensures
        views(out@) == strings_in(items@),
{
    let mut out: Vec<String> = Vec::new();
    let mut i: usize = 0;
    while i < items.len()
        invariant
            i <= items@.len(),
            views(out@) == strings_in(items@.subrange(0, i as int)),
        decreases items.len() - i,
    {
        let ghost before = out@;
        assert(items@.subrange(0, i + 1).drop_last() =~= items@.subrange(0, i as int));
        match &items[i] {
            JsonValue::Str(s) => {
                out.push(s.clone());
                assert(views(out@) =~= views(before).push(s@));
            },
            _ => {},
        }
        i = i + 1;
    }
    assert(items@.subrange(0, items@.len() as int) =~= items@);
    out
}

/// The string items of the list under `key`.
pub fn strings_under(v: &JsonValue, key: &str) -> (out: Vec<String>)
    ensures
        views(out@) == strings_at(*v, key@),
{
    match v.get_member(key) {
        Some(JsonValue::Array(a)) => strings_of(a),
        _ => {
            let out: Vec<String> = Vec::new();
            assert(views(out@) =~= Seq::<Seq<char>>::empty());
            out
        },
    }
}

/// The members of the object under `key`.
pub fn members_under<'a>(v: &'a JsonValue, key: &str) -> (r: Option<&'a Vec<(String, JsonValue)>>)
    ensures
        match r {
            Some(m) => members_at(*v, key@) == m@,
            None => members_at(*v, key@) == Seq::<(String, JsonValue)>::empty(),
        },
{
    match v.get_member(key) {
        Some(JsonValue::Object(m)) => Some(m),
        _ => None,
    }
}

impl JsonValue {
    /// The member named `key`, when this is an object that has one.
    pub fn get_member(&self, key: &str) -> (r: Option<&JsonValue>)
        ensures
            match r {
                Some(x) => get(*self, key@) == Some(*x),
                None => get(*self, key@) is None,
            },
    {
        match self {
            JsonValue::Object(m) => {
                let k = chars_of(key);
                lookup(m, k.as_slice())
            },
            _ => None,
        }
    }

    /// The text of this value, when it is a string.
    pub fn as_text(&self) -> (r: Option<&String>)
        ensures
            match r {
                Some(s) => text_of_opt(Some(*self)) == Some(s@),
                None => text_of_opt(Some(*self)) is None,
            },
    {
        match self {
            JsonValue::Str(s) => Some(s),
            _ => None,
        }
    }

    /// The flag of this value, when it is a boolean.
    pub fn as_flag(&self) -> (r: Option<bool>)
        ensures
            r == bool_of_opt(Some(*self)),
    {
        match self {
            JsonValue::Bool(b) => Some(*b),
            _ => None,
        }
    }

    /// `get(key).and_then(as_str)`.
    pub fn text_at(&self, key: &str) -> (r: Option<&String>)
        ensures
            match r {
                Some(s) => get_text(*self, key@) == Some(s@),
                None => get_text(*self, key@) is None,
            },
    {
        match self.get_member(key) {
            Some(v) => v.as_text(),
            None => None,
        }
    }

    /// `get(key).and_then(as_bool)`.
    pub fn flag_at(&self, key: &str) -> (r: Option<bool>)
        ensures
            r == bool_of_opt(get(*self, key@)),
    {
        match self.get_member(key) {
            Some(v) => v.as_flag(),
            None => None,
        }
    }
}


// ---------------------------------------------------------------------------------------
// Well-formed values
// ---------------------------------------------------------------------------------------

/// No two members of an object share a name.
pub open spec fn unique_keys(m: Seq<(String, JsonValue)>) -> bool {
    forall|i: int, j: int| 0 <= i < j < m.len() ==> (#[trigger] m[i]).0@ != (#[trigger] m[j]).0@
}

/// A value as a JSON or YAML parser hands it over: no object, at any depth, names a member
/// twice.
pub open spec fn well_formed(v: JsonValue) -> bool
    decreases v, 0int,
{
    match v {
        JsonValue::Object(m) => unique_keys(m@) && members_wf(m@, 0),
        JsonValue::Array(a) => items_wf(a@, 0),
        _ => true,
    }
}

pub open spec fn members_wf(m: Seq<(String, JsonValue)>, k: int) -> bool
    decreases m, m.len() - k,
{
    if k < 0 || k >= m.len() {
        true
    } else {
        well_formed(m[k].1) && members_wf(m, k + 1)
    }
}

pub open spec fn items_wf(a: Seq<JsonValue>, k: int) -> bool
    decreases a, a.len() - k,
{
    if k < 0 || k >= a.len() {
        true
    } else {
        well_formed(a[k]) && items_wf(a, k + 1)
    }
}

pub proof fn lemma_members_wf_at(m: Seq<(String, JsonValue)>, k: int, j: int)
    requires
        0 <= k <= j < m.len(),
        members_wf(m, k),
    ensures
        well_formed(m[j].1),
    decreases j - k,
{
    if k < j {
        lemma_members_wf_at(m, k + 1, j);
    }
}

/// With names unique, a member's name reads as its own value.
pub proof fn lemma_member_unique(m: Seq<(String, JsonValue)>, i: int)
    requires
        unique_keys(m),
        0 <= i < m.len(),
    ensures
        member(m, m[i].0@) == Some(m[i].1),
    decreases m.len(),
{
    if i > 0 {
        assert(m[0].0@ != m[i].0@);
        let t = m.drop_first();
        assert forall|a: int, b: int| 0 <= a < b < t.len() implies (#[trigger] t[a]).0@ != (#[trigger] t[b]).0@ by {
            assert(t[a] == m[a + 1] && t[b] == m[b + 1]);
        }
        assert(t[i - 1] == m[i]);
        lemma_member_unique(t, i - 1);
    }
}

/// A name reads as the value of the first member that has it.
pub proof fn lemma_member_found(m: Seq<(String, JsonValue)>, key: Seq<char>)
    requires
        member(m, key) is Some,
    ensures
        exists|k: int| 0 <= k < m.len() && (#[trigger] m[k]).0@ == key && Some(m[k].1) == member(m, key),
    decreases m.len(),
{
    if m[0].0@ != key {
        lemma_member_found(m.drop_first(), key);
        let k = choose|k: int| 0 <= k < m.drop_first().len() && (#[trigger] m.drop_first()[k]).0@ == key && Some(
            m.drop_first()[k].1,
        ) == member(m.drop_first(), key);
        assert(m[k + 1] == m.drop_first()[k]);
    }
}

/// The members of a member object of a well-formed object have unique names.
pub proof fn lemma_members_at_unique(v: JsonValue, key: Seq<char>)
    requires
        well_formed(v),
    ensures
        unique_keys(members_at(v, key)),
{
    if let JsonValue::Object(m) = v {
        if member(m@, key) is Some {
            lemma_member_found(m@, key);
            let k = choose|k: int| 0 <= k < m@.len() && (#[trigger] m@[k]).0@ == key && Some(m@[k].1) == member(m@, key);
            lemma_members_wf_at(m@, 0, k);
        }
    }
}


} // verus!
