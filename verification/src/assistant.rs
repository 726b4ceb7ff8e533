//! The assistant's search over a project's catalogue: the words of a question, how a
//! manifest's fields score against them, and the access verdict an endpoint's audience gives.

use vstd::prelude::*;
use crate::error::ApiError;
use crate::federation::{add_sorted, strictly_sorted};
use crate::json::{get, get_text, views, JsonValue};
use crate::resource::Envelope;
use crate::text::{
    append_chars, append_str, chars_of, contains, find_last, has_infix, join, last_index,
    lemma_last_index, slice_of, str_eq, string_of, trim_chars, trimmed,
};

verus! {

// ---------------------------------------------------------------------------------------
// Unicode, as std reads it
// ---------------------------------------------------------------------------------------

/// Whether std's `char::is_alphanumeric` holds of a character (Unicode `Alphabetic` or
/// `Numeric`).
pub uninterp spec fn alphanumeric(c: char) -> bool;

/// `char::is_alphanumeric`: the Unicode tables std was built with decide; the answer is named,
/// not stated.
#[verifier::external_body]
fn is_alphanumeric(c: char) -> (b: bool)
    ensures
        b == alphanumeric(c),
{
    c.is_alphanumeric()
}

/// What std's `str::to_lowercase` makes of a string (Unicode lower case, which may change the
/// length).
pub uninterp spec fn lowercase(s: Seq<char>) -> Seq<char>;

/// `str::to_lowercase`: the Unicode case mapping std was built with; the answer is named, not
/// stated.
#[verifier::external_body]
pub(crate) fn to_lowercase(s: &str) -> (r: String)
    ensures
        r@ == lowercase(s@),
{
    s.to_lowercase()
}

// ---------------------------------------------------------------------------------------
// The words of a question
// ---------------------------------------------------------------------------------------

/// `str::split` on every character that is not alphanumeric: the pieces between them, the
/// empty ones kept.
pub open spec fn pieces(s: Seq<char>) -> Seq<Seq<char>>
    decreases s.len(),
{
    if s.len() == 0 {
        seq![Seq::<char>::empty()]
    } else {
        let rest = pieces(s.drop_first());
        if !alphanumeric(s[0]) {
            seq![Seq::<char>::empty()] + rest
        } else {
            rest.update(0, seq![s[0]] + rest[0])
        }
    }
}

pub proof fn lemma_pieces_nonempty(s: Seq<char>)
    ensures
        pieces(s).len() >= 1,
    decreases s.len(),
{
    if s.len() > 0 {
        lemma_pieces_nonempty(s.drop_first());
    }
}

fn pieces_of(s: &[char]) -> (parts: Vec<Vec<char>>)
    ensures
        parts@.len() == pieces(s@).len(),
        forall|k: int| 0 <= k < parts@.len() ==> #[trigger] parts@[k]@ == pieces(s@)[k],
{
    let mut parts: Vec<Vec<char>> = Vec::new();
    parts.push(Vec::new());
    let mut i: usize = s.len();
    assert(s@.subrange(s@.len() as int, s@.len() as int) =~= Seq::<char>::empty());
    while i > 0
        invariant
            i <= s.len(),
            parts@.len() == pieces(s@.subrange(i as int, s@.len() as int)).len(),
            forall|k: int|
                0 <= k < parts@.len() ==> #[trigger] parts@[k]@ == pieces(
                    s@.subrange(i as int, s@.len() as int),
                )[k],
        decreases i,
    {
        let ghost old_parts = parts@;
        let ghost tail = s@.subrange(i as int, s@.len() as int);
        i = i - 1;
        let c = s[i];
        let ghost whole = s@.subrange(i as int, s@.len() as int);
        assert(whole.drop_first() =~= tail);
        assert(whole[0] == c);
        proof {
            lemma_pieces_nonempty(tail);
        }
        if !is_alphanumeric(c) {
            parts.insert(0, Vec::new());
            assert forall|k: int| 0 <= k < parts@.len() implies #[trigger] parts@[k]@ == pieces(
                whole,
            )[k] by {
                if k > 0 {
                    assert(parts@[k] == old_parts[k - 1]);
                }
            }
        } else {
            let mut first = parts.remove(0);
            first.insert(0, c);
            parts.insert(0, first);
            assert forall|k: int| 0 <= k < parts@.len() implies #[trigger] parts@[k]@ == pieces(
                whole,
            )[k] by {
                if k == 0 {
                    assert(parts@[0]@ =~= seq![c] + old_parts[0]@);
                } else {
                    assert(parts@[k] == old_parts[k]);
                }
            }
        }
    }
    assert(s@.subrange(0, s@.len() as int) =~= s@);
    parts
}

/// A word of a question: a piece of two characters or more, lower-cased.
pub open spec fn is_word_of(q: Seq<char>, w: Seq<char>) -> bool {
    exists|i: int|
        0 <= i < pieces(q).len() && (#[trigger] pieces(q)[i]).len() >= 2 && w == lowercase(
            pieces(q)[i],
        )
}

/// The words of a question: two characters or more, lower-cased, each once, in order.
pub fn words(q: &str) -> (r: Vec<String>)
    ensures
        strictly_sorted(views(r@)),
        forall|w: Seq<char>| #[trigger] views(r@).contains(w) <==> is_word_of(q@, w),
{
    let c = chars_of(q);
    let parts = pieces_of(c.as_slice());
    let ghost ps = pieces(q@);
    let mut out: Vec<String> = Vec::new();
    let mut k: usize = 0;
    assert(views(out@) =~= Seq::<Seq<char>>::empty());
    while k < parts.len()
        invariant
            k <= parts@.len() == ps.len(),
            ps == pieces(q@),
            forall|m: int| 0 <= m < parts@.len() ==> #[trigger] parts@[m]@ == ps[m],
            strictly_sorted(views(out@)),
            forall|w: Seq<char>|
                #[trigger] views(out@).contains(w) <==> exists|i: int|
                    0 <= i < k && (#[trigger] ps[i]).len() >= 2 && w == lowercase(ps[i]),
        decreases parts.len() - k,
    {
        assert(parts@[k as int]@ == ps[k as int]);
        if parts[k].len() >= 2 {
            let piece = string_of(parts[k].as_slice());
            let lw = to_lowercase(piece.as_str());
            let ghost before = views(out@);
            add_sorted(&mut out, &lw);
            assert forall|w: Seq<char>|
                #[trigger] views(out@).contains(w) <==> exists|i: int|
                    0 <= i < k + 1 && (#[trigger] ps[i]).len() >= 2 && w == lowercase(ps[i]) by {
                if w == lw@ {
                    assert(ps[k as int].len() >= 2 && w == lowercase(ps[k as int]));
                }
                if exists|i: int| 0 <= i < k + 1 && (#[trigger] ps[i]).len() >= 2 && w == lowercase(ps[i]) {
                    let i = choose|i: int| 0 <= i < k + 1 && (#[trigger] ps[i]).len() >= 2 && w == lowercase(ps[i]);
                    if i < k {
                        assert(before.contains(w));
                    }
                }
            }
        } else {
            assert forall|w: Seq<char>|
                #[trigger] views(out@).contains(w) <==> exists|i: int|
                    0 <= i < k + 1 && (#[trigger] ps[i]).len() >= 2 && w == lowercase(ps[i]) by {
                if exists|i: int| 0 <= i < k + 1 && (#[trigger] ps[i]).len() >= 2 && w == lowercase(ps[i]) {
                    let i = choose|i: int| 0 <= i < k + 1 && (#[trigger] ps[i]).len() >= 2 && w == lowercase(ps[i]);
                    assert(i < k);
                }
            }
        }
        k = k + 1;
    }
    out
}

// ---------------------------------------------------------------------------------------
// Scoring
// ---------------------------------------------------------------------------------------

/// Whether a word occurs in one of the texts.
pub open spec fn hits_any(texts: Seq<Seq<char>>, w: Seq<char>) -> bool {
    exists|j: int| 0 <= j < texts.len() && contains(#[trigger] texts[j], w)
}

/// How many of the words occur in one of the texts.
pub open spec fn count_hits(texts: Seq<Seq<char>>, words: Seq<Seq<char>>) -> nat
    decreases words.len(),
{
    if words.len() == 0 {
        0
    } else {
        count_hits(texts, words.drop_last()) + if hits_any(texts, words.last()) {
            1nat
        } else {
            0nat
        }
    }
}

/// Whether one of the words occurs in a text.
pub open spec fn hit_by(text: Seq<char>, words: Seq<Seq<char>>) -> bool {
    exists|j: int| 0 <= j < words.len() && contains(text, #[trigger] words[j])
}

/// The names of the fields one of the words occurs in, in field order.
pub open spec fn reasons_of(names: Seq<Seq<char>>, texts: Seq<Seq<char>>, words: Seq<Seq<char>>) -> Seq<Seq<char>>
    decreases names.len(),
{
    if names.len() == 0 || texts.len() < names.len() {
        Seq::empty()
    } else {
        let rest = reasons_of(names.drop_last(), texts.subrange(0, names.len() - 1), words);
        if hit_by(texts[names.len() - 1], words) {
            rest.push(names.last())
        } else {
            rest
        }
    }
}

pub open spec fn field_names(fields: Seq<(&str, String)>) -> Seq<Seq<char>> {
    fields.map_values(|f: (&str, String)| f.0@)
}

pub open spec fn lowered_texts(fields: Seq<(&str, String)>) -> Seq<Seq<char>> {
    fields.map_values(|f: (&str, String)| lowercase(f.1@))
}

fn contains_word(text: &Vec<char>, words: &[String]) -> (b: bool)
    ensures
        b == hit_by(text@, views(words@)),
{
    let mut j: usize = 0;
    while j < words.len()
        invariant
            j <= words@.len(),
            forall|m: int| 0 <= m < j ==> !contains(text@, #[trigger] views(words@)[m]),
        decreases words.len() - j,
    {
        let w = chars_of(words[j].as_str());
        if has_infix(text.as_slice(), w.as_slice()) {
            assert(contains(text@, views(words@)[j as int]));
            return true;
        }
        j = j + 1;
    }
    false
}

fn hit_in(lowered: &Vec<Vec<char>>, w: &[char]) -> (b: bool)
    ensures
        b == hits_any(lowered@.map_values(|t: Vec<char>| t@), w@),
{
    let ghost ts = lowered@.map_values(|t: Vec<char>| t@);
    let mut j: usize = 0;
    while j < lowered.len()
        invariant
            j <= lowered@.len(),
            ts == lowered@.map_values(|t: Vec<char>| t@),
            forall|m: int| 0 <= m < j ==> !contains(#[trigger] ts[m], w@),
        decreases lowered.len() - j,
    {
        if has_infix(lowered[j].as_slice(), w) {
            assert(contains(ts[j as int], w@));
            return true;
        }
        j = j + 1;
    }
    false
}

/// How many words hit, and the fields they hit: a word hits when it occurs in a field's text
/// in lower case, and a field is named when one of the words occurs in it.
pub fn score(fields: &[(&str, String)], words: &[String]) -> (r: (usize, Vec<String>))
    ensures
        r.0 as nat == count_hits(lowered_texts(fields@), views(words@)),
        views(r.1@) == reasons_of(field_names(fields@), lowered_texts(fields@), views(words@)),
{
    let ghost texts = lowered_texts(fields@);
    let ghost names = field_names(fields@);
    let mut lowered: Vec<Vec<char>> = Vec::new();
    let mut reasons: Vec<String> = Vec::new();
    let mut i: usize = 0;
    assert(views(reasons@) =~= reasons_of(names.subrange(0, 0), texts.subrange(0, 0), views(words@)));
    while i < fields.len()
        invariant
            i <= fields@.len(),
            texts == lowered_texts(fields@),
            names == field_names(fields@),
            lowered@.map_values(|t: Vec<char>| t@) == texts.subrange(0, i as int),
            views(reasons@) == reasons_of(names.subrange(0, i as int), texts.subrange(0, i as int), views(words@)),
        decreases fields.len() - i,
    {
        let l = to_lowercase(fields[i].1.as_str());
        let lc = chars_of(l.as_str());
        let ghost before = views(reasons@);
        let ghost lbefore = lowered@.map_values(|t: Vec<char>| t@);
        assert(names.subrange(0, i + 1).drop_last() =~= names.subrange(0, i as int));
        assert(texts.subrange(0, i + 1).subrange(0, i as int) =~= texts.subrange(0, i as int));
        if contains_word(&lc, words) {
            reasons.push(string_of(chars_of(fields[i].0).as_slice()));
            assert(views(reasons@) =~= before.push(names[i as int]));
        }
        lowered.push(lc);
        assert(lowered@.map_values(|t: Vec<char>| t@) =~= lbefore.push(texts[i as int]));
        assert(texts.subrange(0, i + 1) =~= texts.subrange(0, i as int).push(texts[i as int]));
        i = i + 1;
    }
    assert(names.subrange(0, names.len() as int) =~= names);
    assert(texts.subrange(0, texts.len() as int) =~= texts);
    let mut hits: usize = 0;
    let mut k: usize = 0;
    assert(views(words@).subrange(0, 0) =~= Seq::<Seq<char>>::empty());
    while k < words.len()
        invariant
            k <= words@.len(),
            lowered@.map_values(|t: Vec<char>| t@) == texts,
            hits <= k,
            hits as nat == count_hits(texts, views(words@).subrange(0, k as int)),
        decreases words.len() - k,
    {
        let w = chars_of(words[k].as_str());
        assert(views(words@).subrange(0, k + 1).drop_last() =~= views(words@).subrange(0, k as int));
        assert(views(words@)[k as int] == w@);
        if hit_in(&lowered, w.as_slice()) {
            hits = hits + 1;
        }
        k = k + 1;
    }
    assert(views(words@).subrange(0, words@.len() as int) =~= views(words@));
    (hits, reasons)
}

// ---------------------------------------------------------------------------------------
// Access
// ---------------------------------------------------------------------------------------

/// Whether an item is open to the caller, and why.
#[derive(Debug)]
pub struct Access {
    /// `allowed` or `restricted`.
    pub verdict: String,
    pub reason: String,
}

impl Access {
    pub fn allowed(reason: String) -> (a: Access)
        ensures
            a.verdict@ == "allowed"@,
            a.reason == reason,
    {
        Access { verdict: string_of(chars_of("allowed").as_slice()), reason }
    }

    pub fn restricted(reason: String) -> (a: Access)
        ensures
            a.verdict@ == "restricted"@,
            a.reason == reason,
    {
        Access { verdict: string_of(chars_of("restricted").as_slice()), reason }
    }

    pub fn is_allowed(&self) -> (b: bool)
        ensures
            b == (self.verdict@ == "allowed"@),
    {
        str_eq(self.verdict.as_str(), "allowed")
    }
}

/// The audience an endpoint declares, `project-list` when it declares none.
pub open spec fn audience_of(spec: JsonValue) -> Seq<char> {
    match get_text(spec, "audience"@) {
        Some(a) => a,
        None => "project-list"@,
    }
}

/// Whether the endpoint's `allowedProjects` names the project.
pub open spec fn names_project(spec: JsonValue, project: Seq<char>) -> bool {
    match get(spec, "allowedProjects"@) {
        Some(JsonValue::Array(list)) => exists|i: int|
            0 <= i < list@.len() && ((#[trigger] list@[i]) matches JsonValue::Str(p) && p@ == project),
        _ => false,
    }
}

/// `(allowed, reason)`: whether the endpoint's audience admits a signed-in member of the
/// project.
pub open spec fn access_of(spec: JsonValue, project: Seq<char>) -> (bool, Seq<char>) {
    let audience = audience_of(spec);
    if audience == "public"@ {
        (true, "audience public"@)
    } else if audience == "organization"@ {
        (true, "audience organization: every signed-in member"@)
    } else if audience == "project-list"@ {
        if names_project(spec, project) {
            (true, "audience project-list names "@ + project)
        } else {
            (false, "audience project-list does not name "@ + project)
        }
    } else {
        (false, "audience "@ + audience)
    }
}

fn lists_project(spec: &JsonValue, project: &str) -> (b: bool)
    ensures
        b == names_project(*spec, project@),
{
    match spec.get_member("allowedProjects") {
        Some(JsonValue::Array(list)) => {
            let mut i: usize = 0;
            while i < list.len()
                invariant
                    i <= list@.len(),
                    get(*spec, "allowedProjects"@) == Some(JsonValue::Array(*list)),
                    forall|k: int| 0 <= k < i ==> !((#[trigger] list@[k]) matches JsonValue::Str(p) && p@ == project@),
                decreases list.len() - i,
            {
                match &list[i] {
                    JsonValue::Str(p) => {
                        if str_eq(p.as_str(), project) {
                            assert(list@[i as int] matches JsonValue::Str(p) && p@ == project@);
                            return true;
                        }
                    },
                    _ => {},
                }
                i = i + 1;
            }
            false
        },
        _ => false,
    }
}

/// Whether the endpoint's audience admits a signed-in member of `project`. The data's own
/// grants are the gateway's decision; this says whether the door is open at all.
pub fn endpoint_access(spec: &JsonValue, project: &str) -> (a: Access)
    ensures
        (a.verdict@ == "allowed"@) == access_of(*spec, project@).0,
        a.verdict@ == "allowed"@ || a.verdict@ == "restricted"@,
        a.reason@ == access_of(*spec, project@).1,
{
    let audience = match spec.text_at("audience") {
        Some(a) => chars_of(a.as_str()),
        None => chars_of("project-list"),
    };
    proof {
        reveal_strlit("allowed");
        reveal_strlit("restricted");
    }
    assert(audience@ == audience_of(*spec));
    assert("restricted"@.len() != "allowed"@.len());
    assert("restricted"@ != "allowed"@);
    if crate::text::seq_eq(audience.as_slice(), chars_of("public").as_slice()) {
        Access::allowed(string_of(chars_of("audience public").as_slice()))
    } else if crate::text::seq_eq(audience.as_slice(), chars_of("organization").as_slice()) {
        Access::allowed(string_of(chars_of("audience organization: every signed-in member").as_slice()))
    } else if crate::text::seq_eq(audience.as_slice(), chars_of("project-list").as_slice()) {
        if lists_project(spec, project) {
            let mut m = chars_of("audience project-list names ");
            append_str(&mut m, project);
            Access::allowed(string_of(m.as_slice()))
        } else {
            let mut m = chars_of("audience project-list does not name ");
            append_str(&mut m, project);
            Access::restricted(string_of(m.as_slice()))
        }
    } else {
        let mut m = chars_of("audience ");
        append_chars(&mut m, audience.as_slice());
        Access::restricted(string_of(m.as_slice()))
    }
}

// ---------------------------------------------------------------------------------------
// Catalogue
// ---------------------------------------------------------------------------------------

/// The query of a catalogue search.
#[derive(Debug)]
pub struct CatalogQuery {
    pub q: Option<String>,
    pub scope: Option<String>,
}

/// The runner's counters for the pipeline that feeds an endpoint, read when the search ran.
#[derive(Debug)]
pub struct Freshness {
    pub pipeline: String,
    pub scraped_at: String,
    pub received: Option<u64>,
    pub errors: Option<u64>,
}

/// One match of a search.
#[derive(Debug)]
pub struct CatalogItem {
    pub kind: String,
    pub name: String,
    pub space: String,
    pub owner: String,
    pub title: Option<String>,
    pub endpoint_slug: Option<String>,
    pub match_reason: Vec<String>,
    pub access: Access,
    pub freshness: Option<Freshness>,
    /// How many words of the question hit it, which is what items are ranked by first.
    pub hits: usize,
}

/// The answer of a search.
#[derive(Debug)]
pub struct Catalog {
    pub q: String,
    pub items: Vec<CatalogItem>,
}

/// The kinds a search may be scoped to, in the order ties are broken.
pub open spec fn searchable_kind(k: Seq<char>) -> bool {
    k == "Endpoint"@ || k == "ContextSpace"@ || k == "DataModel"@
}

pub open spec fn empty_question() -> Seq<char> {
    "q must not be empty"@
}

/// The question of a search, trimmed; refused when nothing is left.
pub fn question(q: Option<&str>) -> (r: Result<String, ApiError>)
    ensures
        match r {
            Ok(s) => s@ == trimmed(
                match q {
                    Some(t) => t@,
                    None => Seq::empty(),
                },
            ) && s@.len() > 0,
            Err(e) => (e matches ApiError::BadRequest(m) && m@ == empty_question()) && trimmed(
                match q {
                    Some(t) => t@,
                    None => Seq::empty(),
                },
            ).len() == 0,
        },
{
    let raw = match q {
        Some(t) => chars_of(t),
        None => Vec::new(),
    };
    let t = trim_chars(raw.as_slice());
    if t.len() == 0 {
        return Err(ApiError::BadRequest(string_of(chars_of("q must not be empty").as_slice())));
    }
    Ok(string_of(t.as_slice()))
}

pub open spec fn bad_scope(other: Seq<char>) -> Seq<char> {
    "scope '"@ + other + "' is not one of Endpoint, ContextSpace, DataModel"@
}

/// The kind a search is scoped to: none when absent or blank, one of the searchable kinds, or
/// refused.
pub fn scope_of(scope: Option<&str>) -> (r: Result<Option<String>, ApiError>)
    ensures
        match scope {
            None => r matches Ok(None),
            Some(s) => {
                let t = trimmed(s@);
                if t.len() == 0 {
                    r matches Ok(None)
                } else if searchable_kind(t) {
                    r matches Ok(Some(k)) && k@ == t
                } else {
                    r matches Err(ApiError::BadRequest(m)) && m@ == bad_scope(t)
                }
            },
        },
{
    let s = match scope {
        Some(s) => s,
        None => return Ok(None),
    };
    let c = chars_of(s);
    let t = trim_chars(c.as_slice());
    if t.len() == 0 {
        return Ok(None);
    }
    let ts = t.as_slice();
    if crate::text::seq_eq(ts, chars_of("Endpoint").as_slice()) || crate::text::seq_eq(
        ts,
        chars_of("ContextSpace").as_slice(),
    ) || crate::text::seq_eq(ts, chars_of("DataModel").as_slice()) {
        return Ok(Some(string_of(ts)));
    }
    let mut m = chars_of("scope '");
    append_chars(&mut m, ts);
    append_str(&mut m, "' is not one of Endpoint, ContextSpace, DataModel");
    Err(ApiError::BadRequest(string_of(m.as_slice())))
}

/// Every string leaf of a value, joined with a space: a title in four languages is four
/// strings.
pub open spec fn text_of_value(v: JsonValue) -> Seq<char>
    decreases v, 0int,
{
    match v {
        JsonValue::Str(s) => s@,
        JsonValue::Array(items) => join(item_texts(items@, items@.len() as int), " "@),
        JsonValue::Object(m) => join(member_texts(m@, m@.len() as int), " "@),
        _ => Seq::empty(),
    }
}

pub open spec fn item_texts(items: Seq<JsonValue>, n: int) -> Seq<Seq<char>>
    decreases items, n,
{
    if n <= 0 || n > items.len() {
        Seq::empty()
    } else {
        item_texts(items, n - 1).push(text_of_value(items[n - 1]))
    }
}

pub open spec fn member_texts(m: Seq<(String, JsonValue)>, n: int) -> Seq<Seq<char>>
    decreases m, n,
{
    if n <= 0 || n > m.len() {
        Seq::empty()
    } else {
        member_texts(m, n - 1).push(text_of_value(m[n - 1].1))
    }
}

/// Every string leaf of a value, joined with a space.
pub fn text_of(value: &JsonValue) -> (s: String)
    ensures
        s@ == text_of_value(*value),
    decreases value,
{
    match value {
        JsonValue::Str(s) => s.clone(),
        JsonValue::Array(items) => {
            let mut parts: Vec<Vec<char>> = Vec::new();
            let mut i: usize = 0;
            while i < items.len()
                invariant
                    i <= items@.len(),
                    *value == JsonValue::Array(*items),
                    parts@.map_values(|p: Vec<char>| p@) == item_texts(items@, i as int),
                decreases items.len() - i,
            {
                assert(decreases_to!(*value => (*value)->Array_0));
                assert(decreases_to!(*items => items@));
                assert(decreases_to!(items@ => items@[i as int]));
                let t = text_of(&items[i]);
                let ghost before = parts@.map_values(|p: Vec<char>| p@);
                parts.push(chars_of(t.as_str()));
                assert(parts@.map_values(|p: Vec<char>| p@) =~= before.push(t@));
                i = i + 1;
            }
            let sep = chars_of(" ");
            let joined = crate::text::join_chars(&parts, sep.as_slice());
            string_of(joined.as_slice())
        },
        JsonValue::Object(members) => {
            let mut parts: Vec<Vec<char>> = Vec::new();
            let mut i: usize = 0;
            while i < members.len()
                invariant
                    i <= members@.len(),
                    *value == JsonValue::Object(*members),
                    parts@.map_values(|p: Vec<char>| p@) == member_texts(members@, i as int),
                decreases members.len() - i,
            {
                assert(decreases_to!(*value => (*value)->Object_0));
                assert(decreases_to!(*members => members@));
                assert(decreases_to!(members@ => members@[i as int]));
                assert(decreases_to!(members@[i as int] => members@[i as int].1));
                let t = text_of(&members[i].1);
                let ghost before = parts@.map_values(|p: Vec<char>| p@);
                parts.push(chars_of(t.as_str()));
                assert(parts@.map_values(|p: Vec<char>| p@) =~= before.push(t@));
                i = i + 1;
            }
            let sep = chars_of(" ");
            let joined = crate::text::join_chars(&parts, sep.as_slice());
            string_of(joined.as_slice())
        },
        _ => string_of(Vec::<char>::new().as_slice()),
    }
}

/// The space a `contextSpaceRef` names: the string itself when it is not empty, or the `name`
/// of an object.
pub open spec fn ref_name_of(v: JsonValue) -> Option<Seq<char>> {
    match v {
        JsonValue::Str(s) => if s@.len() > 0 {
            Some(s@)
        } else {
            None
        },
        JsonValue::Object(_) => get_text(v, "name"@),
        _ => None,
    }
}

/// A `contextSpaceRef` is a name or an object naming one.
pub fn ref_name(value: &JsonValue) -> (r: Option<String>)
    ensures
        match r {
            Some(s) => ref_name_of(*value) == Some(s@),
            None => ref_name_of(*value) is None,
        },
{
    match value {
        JsonValue::Str(s) => {
            if s.as_str().is_empty() {
                None
            } else {
                Some(s.clone())
            }
        },
        JsonValue::Object(_) => match value.text_at("name") {
            Some(n) => Some(n.clone()),
            None => None,
        },
        _ => None,
    }
}

/// The endpoint a pipeline writes through: the last segment of its `targetEndpoint` URN, or
/// the whole value when it is a bare name.
pub open spec fn fed_endpoint(target: Seq<char>) -> Seq<char> {
    let k = last_index(target, ':');
    if k >= 0 {
        target.subrange(k + 1, target.len() as int)
    } else {
        target
    }
}

pub fn endpoint_of_target(target: &str) -> (r: String)
    ensures
        r@ == fed_endpoint(target@),
{
    let t = chars_of(target);
    proof {
        lemma_last_index(t@, ':');
    }
    match find_last(t.as_slice(), ':') {
        Some(k) => {
            let n = t.len();
            let from = k + 1;
            string_of(slice_of(t.as_slice(), from, n).as_slice())
        },
        None => string_of(t.as_slice()),
    }
}

/// The domain of the first `Organization` manifest that declares one, else the fallback.
pub open spec fn domain_of(organizations: Seq<Envelope>, fallback: Seq<char>) -> Seq<char>
    decreases organizations.len(),
{
    if organizations.len() == 0 {
        fallback
    } else {
        match get_text(organizations[0].spec, "domain"@) {
            Some(d) => d,
            None => domain_of(organizations.drop_first(), fallback),
        }
    }
}

/// The organization's domain, from the `Organization` manifests of the repository; the project
/// name stands in when there is none, so a draft still renders.
pub fn org_domain(organizations: &Vec<Envelope>, fallback: &str) -> (r: String)
    ensures
        r@ == domain_of(organizations@, fallback@),
{
    let mut i: usize = 0;
    assert(organizations@.subrange(0, organizations@.len() as int) =~= organizations@);
    while i < organizations.len()
        invariant
            i <= organizations@.len(),
            domain_of(organizations@, fallback@) == domain_of(
                organizations@.subrange(i as int, organizations@.len() as int),
                fallback@,
            ),
        decreases organizations.len() - i,
    {
        let ghost rest = organizations@.subrange(i as int, organizations@.len() as int);
        assert(rest.drop_first() =~= organizations@.subrange(i + 1, organizations@.len() as int));
        assert(rest[0] == organizations@[i as int]);
        match organizations[i].spec.text_at("domain") {
            Some(d) => return d.clone(),
            None => {},
        }
        i = i + 1;
    }
    string_of(chars_of(fallback).as_slice())
}

} // verus!
