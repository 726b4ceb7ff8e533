//! A manifest as the Portal reads it from the mirror or an upload, and the catalogue of kinds
//! it serves.

use vstd::prelude::*;
use crate::json::JsonValue;
use crate::text::{chars_of, seq_eq};

verus! {

/// The metadata every manifest carries.
pub struct Metadata {
    pub name: String,
    pub namespace: Option<String>,
    /// `metadata.labels`, in key order.
    pub labels: Vec<(String, String)>,
    /// `metadata.annotations`, in key order.
    pub annotations: Vec<(String, String)>,
    /// `metadata.title`, one entry per language, in key order.
    pub title: Vec<(String, String)>,
    /// `metadata.description`, one entry per language, in key order.
    pub description: Vec<(String, String)>,
}

/// One manifest: its kind, its metadata, its `spec`, and the phase it last reported.
pub struct Envelope {
    pub api_version: String,
    pub kind: String,
    pub metadata: Metadata,
    pub spec: JsonValue,
    /// `status.phase`, when the object has reported one.
    pub phase: Option<String>,
}

/// One kind of the catalogue: the plural its routes and directories use, and its name.
pub struct KindInfo {
    pub plural: String,
    pub kind: String,
}

/// The kind the catalogue lists under this plural.
pub open spec fn kind_by_plural(catalogue: Seq<KindInfo>, plural: Seq<char>) -> Option<Seq<char>>
    decreases catalogue.len(),
{
    if catalogue.len() == 0 {
        None
    } else if catalogue[0].plural@ == plural {
        Some(catalogue[0].kind@)
    } else {
        kind_by_plural(catalogue.drop_first(), plural)
    }
}

/// The kind of a plural, looked up in the catalogue.
pub fn by_plural(catalogue: &Vec<KindInfo>, plural: &[char]) -> (r: Option<String>)
    ensures
        match r {
            Some(k) => kind_by_plural(catalogue@, plural@) == Some(k@),
            None => kind_by_plural(catalogue@, plural@) is None,
        },
{
    let mut i: usize = 0;
    assert(catalogue@.subrange(0, catalogue@.len() as int) =~= catalogue@);
    while i < catalogue.len()
        invariant
            i <= catalogue@.len(),
            kind_by_plural(catalogue@, plural@) == kind_by_plural(
                catalogue@.subrange(i as int, catalogue@.len() as int),
                plural@,
            ),
        decreases catalogue.len() - i,
    {
        let ghost rest = catalogue@.subrange(i as int, catalogue@.len() as int);
        assert(rest.drop_first() =~= catalogue@.subrange(i + 1, catalogue@.len() as int));
        let p = chars_of(catalogue[i].plural.as_str());
        if seq_eq(p.as_slice(), plural) {
            assert(rest[0] == catalogue@[i as int]);
            return Some(catalogue[i].kind.clone());
        }
        i = i + 1;
    }
    None
}

/// The value of the first entry of this key in a map kept as pairs in key order.
pub open spec fn entry(pairs: Seq<(String, String)>, key: Seq<char>) -> Option<Seq<char>>
    decreases pairs.len(),
{
    if pairs.len() == 0 {
        None
    } else if pairs[0].0@ == key {
        Some(pairs[0].1@)
    } else {
        entry(pairs.drop_first(), key)
    }
}

/// The value of a label, an annotation or a title entry.
pub fn entry_of<'a>(pairs: &'a Vec<(String, String)>, key: &str) -> (r: Option<&'a String>)
    ensures
        match r {
            Some(v) => entry(pairs@, key@) == Some(v@),
            None => entry(pairs@, key@) is None,
        },
{
    let want = chars_of(key);
    let mut i: usize = 0;
    assert(pairs@.subrange(0, pairs@.len() as int) =~= pairs@);
    while i < pairs.len()
        invariant
            i <= pairs@.len(),
            want@ == key@,
            entry(pairs@, key@) == entry(pairs@.subrange(i as int, pairs@.len() as int), key@),
        decreases pairs.len() - i,
    {
        let ghost rest = pairs@.subrange(i as int, pairs@.len() as int);
        assert(rest.drop_first() =~= pairs@.subrange(i + 1, pairs@.len() as int));
        let k = chars_of(pairs[i].0.as_str());
        if seq_eq(k.as_slice(), want.as_slice()) {
            assert(rest[0] == pairs@[i as int]);
            return Some(&pairs[i].1);
        }
        i = i + 1;
    }
    None
}

} // verus!
