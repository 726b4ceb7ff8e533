//! Exporting a project: which revision may be named, which files a filter selects, what is
//! stripped from a manifest before it leaves, and where a path beside a manifest points.

use vstd::prelude::*;
use crate::error::ApiError;
use crate::import::native_kind_of;
use crate::json::{get_text, member, views, JsonValue};
use crate::json_edit::{set_member, take_member};
use vstd::utf8::encode_utf8;
use crate::mutate::{is_secret_key, secret_key};
use crate::resource::{by_plural, kind_by_plural, Envelope, KindInfo};
use crate::text::{
    last_index, less_than, lex_lt, slice_of, decimal, decimal_of, append_chars, append_str, ascii_alnum, chars_of, contains, ends_with, has_infix, has_prefix,
    has_suffix, is_ascii_alnum, is_lower_hex, join, join_chars, lower_hex, seq_eq, split,
    split_chars, starts_with, str_eq, string_of, trim_chars, trimmed,
};
use crate::import::native_kind;

verus! {

/// The query of an export.
#[derive(Debug)]
pub struct ExportQuery {
    pub format: Option<String>,
    pub revision: Option<String>,
    /// Comma-separated plurals, e.g. `endpoints,pipelines`.
    pub kinds: Option<String>,
    /// Comma-separated `metadata.name` values.
    pub names: Option<String>,
}

/// The query of the revision picker.
#[derive(Debug)]
pub struct RevisionsQuery {
    pub limit: Option<usize>,
}

/// One commit touching the project.
#[derive(Debug)]
pub struct Revision {
    pub sha: String,
    pub message: String,
    pub author: String,
    pub date: String,
}

/// The commits touching a project, newest first.
#[derive(Debug)]
pub struct RevisionList {
    pub items: Vec<Revision>,
}

// ---------------------------------------------------------------------------------------
// Revisions
// ---------------------------------------------------------------------------------------

/// A commit id: 7 to 40 lower-case hexadecimal digits.
pub open spec fn commit_id(r: Seq<char>) -> bool {
    7 <= r.len() <= 40 && forall|i: int| 0 <= i < r.len() ==> is_lower_hex(#[trigger] r[i])
}

/// Whether a revision is a commit id rather than a branch name.
pub fn is_commit(revision: &str) -> (b: bool)
    ensures
        b == commit_id(revision@),
{
    let r = chars_of(revision);
    if r.len() < 7 || r.len() > 40 {
        return false;
    }
    let mut i: usize = 0;
    while i < r.len()
        invariant
            i <= r@.len(),
            r@ == revision@,
            7 <= r@.len() <= 40,
            forall|k: int| 0 <= k < i ==> is_lower_hex(#[trigger] r@[k]),
        decreases r.len() - i,
    {
        if !lower_hex(r[i]) {
            return false;
        }
        i = i + 1;
    }
    true
}

pub open spec fn revision_char(c: char) -> bool {
    is_ascii_alnum(c) || c == '.' || c == '_' || c == '-' || c == '/'
}

/// A revision a caller may name: a branch name or a commit, 1 to 128 characters of letters,
/// digits and `. _ - /`, not starting with `-` and never holding `..`. (Every character that
/// passes is ASCII, so its length in characters is its length in bytes.)
pub open spec fn revision_ok(r: Seq<char>) -> bool {
    &&& r.len() > 0
    &&& r.len() <= 128
    &&& r[0] != '-'
    &&& !contains(r, ".."@)
    &&& forall|i: int| 0 <= i < r.len() ==> revision_char(#[trigger] r[i])
}

/// A revision is put into a forge URL, so it is checked before it is used. Branch names and
/// commit shas are the whole of what a caller may name here.
pub fn valid_revision(revision: &str) -> (b: bool)
    ensures
        b == revision_ok(revision@),
{
    let r = chars_of(revision);
    if r.len() == 0 || r.len() > 128 || r[0] == '-' {
        return false;
    }
    let dots = chars_of("..");
    if has_infix(r.as_slice(), dots.as_slice()) {
        return false;
    }
    let mut i: usize = 0;
    while i < r.len()
        invariant
            i <= r@.len(),
            r@ == revision@,
            0 < r@.len() <= 128,
            r@[0] != '-',
            !contains(r@, ".."@),
            forall|k: int| 0 <= k < i ==> revision_char(#[trigger] r@[k]),
        decreases r.len() - i,
    {
        let c = r[i];
        if !(ascii_alnum(c) || c == '.' || c == '_' || c == '-' || c == '/') {
            return false;
        }
        i = i + 1;
    }
    true
}

pub open spec fn limit_message() -> Seq<char> {
    "limit must be between 1 and 100"@
}

/// The page size of the revision picker: 20 unless asked, refused outside 1 to 100.
pub fn revisions_limit(limit: Option<usize>) -> (r: Result<usize, ApiError>)
    ensures
        match limit {
            None => r == Ok::<usize, ApiError>(20),
            Some(n) => if 1 <= n <= 100 {
                r == Ok::<usize, ApiError>(n)
            } else {
                r matches Err(ApiError::BadRequest(m)) && m@ == limit_message()
            },
        },
{
    let n = match limit {
        Some(n) => n,
        None => 20,
    };
    if n == 0 || n > 100 {
        return Err(ApiError::BadRequest(string_of(chars_of("limit must be between 1 and 100").as_slice())));
    }
    Ok(n)
}

// ---------------------------------------------------------------------------------------
// Filters
// ---------------------------------------------------------------------------------------

/// The items of a comma-separated list, trimmed, the empty ones left out.
pub open spec fn kept_items(parts: Seq<Seq<char>>) -> Seq<Seq<char>>
    decreases parts.len(),
{
    if parts.len() == 0 {
        Seq::empty()
    } else {
        let rest = kept_items(parts.drop_last());
        if trimmed(parts.last()).len() > 0 {
            rest.push(trimmed(parts.last()))
        } else {
            rest
        }
    }
}

/// A comma-separated selection: nothing when absent or when it names nothing.
pub open spec fn selection(raw: Option<Seq<char>>) -> Option<Seq<Seq<char>>> {
    match raw {
        None => None,
        Some(r) => {
            let l = kept_items(split(r, ','));
            if l.len() > 0 {
                Some(l)
            } else {
                None
            }
        },
    }
}

pub open spec fn opt_str(raw: Option<&str>) -> Option<Seq<char>> {
    match raw {
        Some(r) => Some(r@),
        None => None,
    }
}

pub fn selected(raw: Option<&str>) -> (r: Option<Vec<String>>)
    ensures
        match r {
            Some(v) => selection(opt_str(raw)) == Some(views(v@)),
            None => selection(opt_str(raw)) is None,
        },
{
    let text = match raw {
        Some(t) => t,
        None => return None,
    };
    let c = chars_of(text);
    let parts = split_chars(c.as_slice(), ',');
    let ghost sp = split(text@, ',');
    let mut list: Vec<String> = Vec::new();
    let mut i: usize = 0;
    assert(views(list@) =~= kept_items(sp.subrange(0, 0)));
    while i < parts.len()
        invariant
            i <= parts@.len() == sp.len(),
            forall|k: int| 0 <= k < parts@.len() ==> #[trigger] parts@[k]@ == sp[k],
            views(list@) == kept_items(sp.subrange(0, i as int)),
        decreases parts.len() - i,
    {
        assert(sp.subrange(0, i + 1).drop_last() =~= sp.subrange(0, i as int));
        assert(parts@[i as int]@ == sp[i as int]);
        let t = trim_chars(parts[i].as_slice());
        if t.len() > 0 {
            let ghost before = views(list@);
            list.push(string_of(t.as_slice()));
            assert(views(list@) =~= before.push(t@));
        }
        i = i + 1;
    }
    assert(sp.subrange(0, sp.len() as int) =~= sp);
    if list.len() == 0 {
        None
    } else {
        Some(list)
    }
}

/// The kind of a plural, or `unknown:{plural}` for one the catalogue does not list.
pub open spec fn filter_kind(catalogue: Seq<KindInfo>, plural: Seq<char>) -> Seq<char> {
    match kind_by_plural(catalogue, plural) {
        Some(k) => k,
        None => "unknown:"@ + plural,
    }
}

/// `kinds=endpoints,pipelines` as the kind names the manifests carry. An unknown plural filters
/// everything out rather than being ignored: a filter that silently does nothing is a bug that
/// ships a bigger bundle than the caller asked for.
pub fn kind_filter(catalogue: &Vec<KindInfo>, raw: Option<&str>) -> (r: Option<Vec<String>>)
    ensures
        match (r, selection(opt_str(raw))) {
            (Some(v), Some(plurals)) => views(v@) == plurals.map_values(
                |p: Seq<char>| filter_kind(catalogue@, p),
            ),
            (None, None) => true,
            _ => false,
        },
{
    let plurals = match selected(raw) {
        Some(p) => p,
        None => return None,
    };
    let ghost ps = views(plurals@);
    let mut out: Vec<String> = Vec::new();
    let mut i: usize = 0;
    while i < plurals.len()
        invariant
            i <= plurals@.len(),
            ps == views(plurals@),
            views(out@) == ps.subrange(0, i as int).map_values(|p: Seq<char>| filter_kind(catalogue@, p)),
        decreases plurals.len() - i,
    {
        let p = chars_of(plurals[i].as_str());
        let kind = match by_plural(catalogue, p.as_slice()) {
            Some(k) => k,
            None => {
                let mut m = chars_of("unknown:");
                append_chars(&mut m, p.as_slice());
                string_of(m.as_slice())
            },
        };
        let ghost before = views(out@);
        out.push(kind);
        assert(ps.subrange(0, i + 1) =~= ps.subrange(0, i as int).push(ps[i as int]));
        assert(views(out@) =~= before.push(filter_kind(catalogue@, ps[i as int])));
        i = i + 1;
    }
    assert(ps.subrange(0, ps.len() as int) =~= ps);
    Some(out)
}

/// A YAML file, which may hold a manifest.
pub open spec fn manifest_path(path: Seq<char>) -> bool {
    ends_with(path, ".yaml"@) || ends_with(path, ".yml"@)
}

pub fn is_manifest_path(path: &str) -> (b: bool)
    ensures
        b == manifest_path(path@),
{
    let p = chars_of(path);
    has_suffix(p.as_slice(), chars_of(".yaml").as_slice()) || has_suffix(
        p.as_slice(),
        chars_of(".yml").as_slice(),
    )
}

pub open spec fn opt_views(l: Option<&Vec<String>>) -> Option<Seq<Seq<char>>> {
    match l {
        Some(v) => Some(views(v@)),
        None => None,
    }
}

fn listed(wanted: &Vec<String>, s: &String) -> (b: bool)
    ensures
        b == views(wanted@).contains(s@),
{
    let mut i: usize = 0;
    while i < wanted.len()
        invariant
            i <= wanted@.len(),
            forall|k: int| 0 <= k < i ==> wanted@[k]@ != s@,
        decreases wanted.len() - i,
    {
        if wanted[i] == *s {
            assert(views(wanted@)[i as int] == s@);
            return true;
        }
        i = i + 1;
    }
    assert(!views(wanted@).contains(s@)) by {
        if views(wanted@).contains(s@) {
            let k = choose|k: int| 0 <= k < views(wanted@).len() && views(wanted@)[k] == s@;
            assert(wanted@[k]@ == s@);
        }
    }
    false
}

/// Whether a manifest is one the filters of an export ask for: no filter asks for everything.
pub open spec fn filters_match(
    kind: Seq<char>,
    name: Seq<char>,
    kinds: Option<Seq<Seq<char>>>,
    names: Option<Seq<Seq<char>>>,
) -> bool {
    (match kinds {
        None => true,
        Some(w) => w.contains(kind),
    }) && (match names {
        None => true,
        Some(w) => w.contains(name),
    })
}

pub fn matches_filters(
    envelope: &Envelope,
    kinds: Option<&Vec<String>>,
    names: Option<&Vec<String>>,
) -> (b: bool)
    ensures
        b == filters_match(envelope.kind@, envelope.metadata.name@, opt_views(kinds), opt_views(names)),
{
    let kind_ok = match kinds {
        None => true,
        Some(w) => listed(w, &envelope.kind),
    };
    let name_ok = match names {
        None => true,
        Some(w) => listed(w, &envelope.metadata.name),
    };
    kind_ok && name_ok
}

/// Whether a native file is one the filters of an export ask for: its kind is the one its
/// directory names, and it belongs to a named resource when a directory of its path below the
/// project is that name or its file is named after it.
pub open spec fn native_filters_match(
    catalogue: Seq<KindInfo>,
    path: Seq<char>,
    kinds: Option<Seq<Seq<char>>>,
    names: Option<Seq<Seq<char>>>,
) -> bool {
    let parts = split(path, '/');
    let file = parts.last();
    let dirs = if parts.len() >= 3 {
        parts.subrange(2, parts.len() - 1)
    } else {
        Seq::empty()
    };
    (match kinds {
        None => true,
        Some(w) => match native_kind_of(catalogue, path) {
            Some(k) => w.contains(k),
            None => false,
        },
    }) && (match names {
        None => true,
        Some(w) => exists|i: int|
            0 <= i < w.len() && (dirs.contains(#[trigger] w[i]) || starts_with(file, w[i] + "."@)),
    })
}

/// Whether `name` is one of the directories below the project in a path's parts.
fn dir_listed(parts: &Vec<Vec<char>>, name: &Vec<char>) -> (b: bool)
    ensures
        ({
            let ps = parts@.map_values(|p: Vec<char>| p@);
            let dirs = if ps.len() >= 3 {
                ps.subrange(2, ps.len() - 1)
            } else {
                Seq::empty()
            };
            b == dirs.contains(name@)
        }),
{
    let ghost ps = parts@.map_values(|p: Vec<char>| p@);
    if parts.len() < 3 {
        return false;
    }
    let ghost dirs = ps.subrange(2, ps.len() - 1);
    let mut j: usize = 2;
    while j < parts.len() - 1
        invariant
            2 <= j <= parts@.len() - 1,
            parts@.len() >= 3,
            ps == parts@.map_values(|p: Vec<char>| p@),
            dirs == ps.subrange(2, ps.len() - 1),
            forall|q: int| 2 <= q < j ==> ps[q] != name@,
        decreases parts.len() - 1 - j,
    {
        if seq_eq(parts[j].as_slice(), name.as_slice()) {
            assert(dirs[j - 2] == name@);
            return true;
        }
        j = j + 1;
    }
    assert(!dirs.contains(name@)) by {
        if dirs.contains(name@) {
            let q = choose|q: int| 0 <= q < dirs.len() && dirs[q] == name@;
            assert(ps[q + 2] == name@);
        }
    }
    false
}

fn names_any(wanted: &Vec<String>, parts: &Vec<Vec<char>>, file: &Vec<char>) -> (b: bool)
    requires
        parts@.len() >= 1,
    ensures
        ({
            let ps = parts@.map_values(|p: Vec<char>| p@);
            let dirs = if ps.len() >= 3 {
                ps.subrange(2, ps.len() - 1)
            } else {
                Seq::empty()
            };
            b == exists|i: int|
                0 <= i < views(wanted@).len() && (dirs.contains(#[trigger] views(wanted@)[i])
                    || starts_with(file@, views(wanted@)[i] + "."@))
        }),
{
    let ghost ps = parts@.map_values(|p: Vec<char>| p@);
    let ghost dirs = if ps.len() >= 3 {
        ps.subrange(2, ps.len() - 1)
    } else {
        Seq::<Seq<char>>::empty()
    };
    let ghost w = views(wanted@);
    let mut i: usize = 0;
    while i < wanted.len()
        invariant
            i <= wanted@.len(),
            parts@.len() >= 1,
            ps == parts@.map_values(|p: Vec<char>| p@),
            w == views(wanted@),
            dirs == (if ps.len() >= 3 {
                ps.subrange(2, ps.len() - 1)
            } else {
                Seq::<Seq<char>>::empty()
            }),
            forall|k: int|
                0 <= k < i ==> !(dirs.contains(#[trigger] w[k]) || starts_with(file@, w[k] + "."@)),
        decreases wanted.len() - i,
    {
        let name = chars_of(wanted[i].as_str());
        let hit = dir_listed(parts, &name);
        let mut dotted = name.clone();
        dotted.push('.');
        assert(dotted@ =~= name@ + "."@) by {
            reveal_strlit(".");
        }
        if hit || has_prefix(file.as_slice(), dotted.as_slice()) {
            assert(w[i as int] == name@);
            return true;
        }
        i = i + 1;
    }
    false
}

pub fn native_matches_filters(
    catalogue: &Vec<KindInfo>,
    path: &str,
    kinds: Option<&Vec<String>>,
    names: Option<&Vec<String>>,
) -> (b: bool)
    ensures
        b == native_filters_match(catalogue@, path@, opt_views(kinds), opt_views(names)),
{
    let p = chars_of(path);
    let parts = split_chars(p.as_slice(), '/');
    proof {
        crate::text::lemma_split_nonempty(path@, '/');
    }
    let ghost sp = split(path@, '/');
    assert(parts@.map_values(|q: Vec<char>| q@) =~= sp);
    let file = parts[parts.len() - 1].clone();
    assert(file@ == sp.last());
    let kind_ok = match kinds {
        None => true,
        Some(w) => match native_kind(catalogue, path) {
            Some(k) => listed(w, &k),
            None => false,
        },
    };
    let name_ok = match names {
        None => true,
        Some(w) => names_any(w, &parts, &file),
    };
    assert(kind_ok == (match opt_views(kinds) {
        None => true,
        Some(w) => match native_kind_of(catalogue@, path@) {
            Some(k) => w.contains(k),
            None => false,
        },
    }));
    assert(name_ok == (match opt_views(names) {
        None => true,
        Some(w) => exists|i: int|
            0 <= i < w.len() && ((if sp.len() >= 3 {
                sp.subrange(2, sp.len() - 1)
            } else {
                Seq::empty()
            }).contains(#[trigger] w[i]) || starts_with(sp.last(), w[i] + "."@)),
    }));
    kind_ok && name_ok
}

// ---------------------------------------------------------------------------------------
// What leaves with a manifest
// ---------------------------------------------------------------------------------------

/// `b` is `a` with the string under every credential key emptied, at any depth, and nothing
/// else changed: the key stays, so the bundle stays re-importable.
pub open spec fn secrets_emptied(a: JsonValue, b: JsonValue) -> bool
    decreases a, 0int,
{
    match (a, b) {
        (JsonValue::Object(ma), JsonValue::Object(mb)) => ma@.len() == mb@.len() && members_emptied(
            ma@,
            mb@,
            ma@.len() as int,
        ),
        (JsonValue::Array(ia), JsonValue::Array(ib)) => ia@.len() == ib@.len() && items_emptied(
            ia@,
            ib@,
            ia@.len() as int,
        ),
        (JsonValue::Object(_), _) => false,
        (JsonValue::Array(_), _) => false,
        _ => b == a,
    }
}

pub open spec fn members_emptied(ma: Seq<(String, JsonValue)>, mb: Seq<(String, JsonValue)>, n: int) -> bool
    decreases ma, n,
{
    if n <= 0 || n > ma.len() || n > mb.len() {
        true
    } else {
        &&& members_emptied(ma, mb, n - 1)
        &&& mb[n - 1].0 == ma[n - 1].0
        &&& if is_secret_key(ma[n - 1].0@) && ma[n - 1].1 is Str {
            mb[n - 1].1 matches JsonValue::Str(s) && s@.len() == 0
        } else {
            secrets_emptied(ma[n - 1].1, mb[n - 1].1)
        }
    }
}

pub open spec fn items_emptied(ia: Seq<JsonValue>, ib: Seq<JsonValue>, n: int) -> bool
    decreases ia, n,
{
    if n <= 0 || n > ia.len() || n > ib.len() {
        true
    } else {
        items_emptied(ia, ib, n - 1) && secrets_emptied(ia[n - 1], ib[n - 1])
    }
}

proof fn lemma_members_emptied_prefix(ma: Seq<(String, JsonValue)>, mb: Seq<(String, JsonValue)>, mb2: Seq<(String, JsonValue)>, n: int)
    requires
        0 <= n <= mb.len(),
        n <= ma.len(),
        mb2.len() >= n,
        forall|k: int| 0 <= k < n ==> mb2[k] == mb[k],
        members_emptied(ma, mb, n),
    ensures
        members_emptied(ma, mb2, n),
    decreases n,
{
    if n > 0 {
        lemma_members_emptied_prefix(ma, mb, mb2, n - 1);
    }
}

proof fn lemma_items_emptied_prefix(ia: Seq<JsonValue>, ib: Seq<JsonValue>, ib2: Seq<JsonValue>, n: int)
    requires
        0 <= n <= ib.len(),
        n <= ia.len(),
        ib2.len() >= n,
        forall|k: int| 0 <= k < n ==> ib2[k] == ib[k],
        items_emptied(ia, ib, n),
    ensures
        items_emptied(ia, ib2, n),
    decreases n,
{
    if n > 0 {
        lemma_items_emptied_prefix(ia, ib, ib2, n - 1);
    }
}

fn emptied_copy(v: &JsonValue) -> (out: JsonValue)
    ensures
        secrets_emptied(*v, out),
    decreases v,
{
    match v {
        JsonValue::Object(members) => {
            let mut out: Vec<(String, JsonValue)> = Vec::new();
            let mut i: usize = 0;
            while i < members.len()
                invariant
                    i <= members@.len(),
                    *v == JsonValue::Object(*members),
                    out@.len() == i,
                    members_emptied(members@, out@, i as int),
                decreases members.len() - i,
            {
                let key = members[i].0.clone();
                let is_text = match &members[i].1 {
                    JsonValue::Str(_) => true,
                    _ => false,
                };
                let child = if secret_key(key.as_str()) && is_text {
                    JsonValue::Str(String::new())
                } else {
                    assert(decreases_to!(*v => (*v)->Object_0));
                    assert(decreases_to!(*members => members@));
                    assert(decreases_to!(members@ => members@[i as int]));
                    assert(decreases_to!(members@[i as int] => members@[i as int].1));
                    emptied_copy(&members[i].1)
                };
                let ghost before = out@;
                out.push((key, child));
                proof {
                    lemma_members_emptied_prefix(members@, before, out@, i as int);
                }
                i = i + 1;
            }
            JsonValue::Object(out)
        },
        JsonValue::Array(items) => {
            let mut out: Vec<JsonValue> = Vec::new();
            let mut i: usize = 0;
            while i < items.len()
                invariant
                    i <= items@.len(),
                    *v == JsonValue::Array(*items),
                    out@.len() == i,
                    items_emptied(items@, out@, i as int),
                decreases items.len() - i,
            {
                assert(decreases_to!(*v => (*v)->Array_0));
                assert(decreases_to!(*items => items@));
                assert(decreases_to!(items@ => items@[i as int]));
                let child = emptied_copy(&items[i]);
                let ghost before = out@;
                out.push(child);
                proof {
                    lemma_items_emptied_prefix(items@, before, out@, i as int);
                }
                i = i + 1;
            }
            JsonValue::Array(out)
        },
        JsonValue::Null => JsonValue::Null,
        JsonValue::Bool(b) => JsonValue::Bool(*b),
        JsonValue::Number(n) => JsonValue::Number(n.clone()),
        JsonValue::Str(s) => JsonValue::Str(s.clone()),
    }
}

/// Empties every string value stored under a credential key, at any depth.
///
/// The key stays with an empty string rather than disappearing: a bundle must stay
/// re-importable, and a manifest that lost a required field would not validate on the way back
/// in.
pub fn strip_secret_values(value: &mut JsonValue)
    ensures
        secrets_emptied(*old(value), *final(value)),
{
    let out = emptied_copy(value);
    *value = out;
}


/// Whether no credential key in the value, at any depth, holds a string with something in it.
pub open spec fn secret_free(v: JsonValue) -> bool
    decreases v, 0int,
{
    match v {
        JsonValue::Object(m) => members_free(m@, m@.len() as int),
        JsonValue::Array(a) => items_free(a@, a@.len() as int),
        _ => true,
    }
}

pub open spec fn members_free(m: Seq<(String, JsonValue)>, n: int) -> bool
    decreases m, n,
{
    if n <= 0 || n > m.len() {
        true
    } else {
        &&& members_free(m, n - 1)
        &&& if is_secret_key(m[n - 1].0@) && m[n - 1].1 is Str {
            m[n - 1].1 matches JsonValue::Str(s) && s@.len() == 0
        } else {
            secret_free(m[n - 1].1)
        }
    }
}

pub open spec fn items_free(a: Seq<JsonValue>, n: int) -> bool
    decreases a, n,
{
    if n <= 0 || n > a.len() {
        true
    } else {
        items_free(a, n - 1) && secret_free(a[n - 1])
    }
}

proof fn lemma_value_free(a: JsonValue, b: JsonValue)
    requires
        secrets_emptied(a, b),
    ensures
        secret_free(b),
    decreases a, 0int,
{
    match (a, b) {
        (JsonValue::Object(ma), JsonValue::Object(mb)) => {
            lemma_members_free(ma@, mb@, ma@.len() as int);
        },
        (JsonValue::Array(ia), JsonValue::Array(ib)) => {
            lemma_items_free(ia@, ib@, ia@.len() as int);
        },
        _ => {},
    }
}

proof fn lemma_members_free(ma: Seq<(String, JsonValue)>, mb: Seq<(String, JsonValue)>, n: int)
    requires
        0 <= n <= ma.len() == mb.len(),
        members_emptied(ma, mb, n),
    ensures
        members_free(mb, n),
    decreases ma, n,
{
    if n > 0 {
        lemma_members_free(ma, mb, n - 1);
        if !(is_secret_key(ma[n - 1].0@) && ma[n - 1].1 is Str) {
            lemma_value_free(ma[n - 1].1, mb[n - 1].1);
            if is_secret_key(mb[n - 1].0@) && mb[n - 1].1 is Str {
                assert(secrets_emptied(ma[n - 1].1, mb[n - 1].1));
                match ma[n - 1].1 {
                    JsonValue::Object(_) => {
                        assert(false);
                    },
                    JsonValue::Array(_) => {
                        assert(false);
                    },
                    _ => {
                        assert(mb[n - 1].1 == ma[n - 1].1);
                    },
                }
            }
        }
    }
}

proof fn lemma_items_free(ia: Seq<JsonValue>, ib: Seq<JsonValue>, n: int)
    requires
        0 <= n <= ia.len() == ib.len(),
        items_emptied(ia, ib, n),
    ensures
        items_free(ib, n),
    decreases ia, n,
{
    if n > 0 {
        lemma_items_free(ia, ib, n - 1);
        lemma_value_free(ia[n - 1], ib[n - 1]);
    }
}

/// What an export strips keeps no secret: after it, no credential key at any depth holds a
/// string with something in it.
pub proof fn stripped_values_hold_no_secret(before: JsonValue, after: JsonValue)
    requires
        secrets_emptied(before, after),
    ensures
        secret_free(after),
{
    lemma_value_free(before, after);
}

// ---------------------------------------------------------------------------------------
// What a complete export says of itself
// ---------------------------------------------------------------------------------------

/// What each kind is, in one sentence, for the README of a complete export; nothing for a
/// kind the table does not know.
pub open spec fn about_of(kind: Seq<char>) -> Seq<char> {
    if kind == "Organization"@ {
        "The city or institution running the instance: its domain, name and defaults."@
    } else if kind == "Project"@ {
        "A workspace of one department or programme, holding its spaces, pipelines and applications."@
    } else if kind == "ContextSpace"@ {
        "One topic's live data, such as air quality: the broker tenant and the data model it serves."@
    } else if kind == "DataModel"@ {
        "The entity types of a space, authored in LinkML; its JSON Schema and JSON-LD context are generated from it."@
    } else if kind == "Mapping"@ {
        "How a source's records become the model's entities, compiled to Bloblang."@
    } else if kind == "Policy"@ {
        "Who may read or write which entities and attributes of a space."@
    } else if kind == "ScopeDefinition"@ {
        "A named OAuth scope and the policy grants it stands for."@
    } else if kind == "Endpoint"@ {
        "A published door onto a space: its address, audience, formats and limits."@
    } else if kind == "ModelProjection"@ {
        "A reduced or reshaped view of a data model that an endpoint serves."@
    } else if kind == "SharedSpaceReference"@ {
        "A space another project or instance shares with this one."@
    } else if kind == "ContextSourceRegistration"@ {
        "A federated source whose entities a space answers for."@
    } else if kind == "ServiceAccount"@ {
        "A machine identity and the grants it holds."@
    } else if kind == "Pipeline"@ {
        "A job that loads or transforms data into a space through an endpoint."@
    } else if kind == "DataSource"@ {
        "The connection to one external feed and the references to its credentials."@
    } else if kind == "App"@ {
        "An application built on endpoints: its data needs, visibility and build."@
    } else if kind == "CkanInstance"@ {
        "An open data catalogue the project publishes its datasets to."@
    } else if kind == "Blueprint"@ {
        "A reusable template that creates a set of resources."@
    } else if kind == "AgentProfile"@ {
        "The model, limits and permitted operations of an AI agent."@
    } else if kind == "DataSpaceParticipant"@ {
        "The organization's identity in a data space: its DID and connector."@
    } else if kind == "DataOffer"@ {
        "An endpoint offered in a data space under an ODRL policy."@
    } else if kind == "DataAgreement"@ {
        "A concluded data space contract and the access compiled from it."@
    } else if kind == "SyncSource"@ {
        "A repository, bundle or instance this configuration follows."@
    } else if kind == "Bundle"@ {
        "The index of a download: what it holds and where it came from."@
    } else if kind == "UiSchema"@ {
        "How the Portal arranges the form of one kind."@
    } else if kind == "Role"@ {
        "A named set of permissions."@
    } else if kind == "RoleBinding"@ {
        "Who holds which role, and where."@
    } else if kind == "Dashboard"@ {
        "A page of charts, maps and indicators over endpoints."@
    } else if kind == "Layer"@ {
        "A map layer a dashboard or an application draws."@
    } else {
        ""@
    }
}

/// What a kind is, in one sentence.
pub fn about(kind: &str) -> (s: &'static str)
    ensures
        s@ == about_of(kind@),
{
    if str_eq(kind, "Organization") {
        "The city or institution running the instance: its domain, name and defaults."
    } else if str_eq(kind, "Project") {
        "A workspace of one department or programme, holding its spaces, pipelines and applications."
    } else if str_eq(kind, "ContextSpace") {
        "One topic's live data, such as air quality: the broker tenant and the data model it serves."
    } else if str_eq(kind, "DataModel") {
        "The entity types of a space, authored in LinkML; its JSON Schema and JSON-LD context are generated from it."
    } else if str_eq(kind, "Mapping") {
        "How a source's records become the model's entities, compiled to Bloblang."
    } else if str_eq(kind, "Policy") {
        "Who may read or write which entities and attributes of a space."
    } else if str_eq(kind, "ScopeDefinition") {
        "A named OAuth scope and the policy grants it stands for."
    } else if str_eq(kind, "Endpoint") {
        "A published door onto a space: its address, audience, formats and limits."
    } else if str_eq(kind, "ModelProjection") {
        "A reduced or reshaped view of a data model that an endpoint serves."
    } else if str_eq(kind, "SharedSpaceReference") {
        "A space another project or instance shares with this one."
    } else if str_eq(kind, "ContextSourceRegistration") {
        "A federated source whose entities a space answers for."
    } else if str_eq(kind, "ServiceAccount") {
        "A machine identity and the grants it holds."
    } else if str_eq(kind, "Pipeline") {
        "A job that loads or transforms data into a space through an endpoint."
    } else if str_eq(kind, "DataSource") {
        "The connection to one external feed and the references to its credentials."
    } else if str_eq(kind, "App") {
        "An application built on endpoints: its data needs, visibility and build."
    } else if str_eq(kind, "CkanInstance") {
        "An open data catalogue the project publishes its datasets to."
    } else if str_eq(kind, "Blueprint") {
        "A reusable template that creates a set of resources."
    } else if str_eq(kind, "AgentProfile") {
        "The model, limits and permitted operations of an AI agent."
    } else if str_eq(kind, "DataSpaceParticipant") {
        "The organization's identity in a data space: its DID and connector."
    } else if str_eq(kind, "DataOffer") {
        "An endpoint offered in a data space under an ODRL policy."
    } else if str_eq(kind, "DataAgreement") {
        "A concluded data space contract and the access compiled from it."
    } else if str_eq(kind, "SyncSource") {
        "A repository, bundle or instance this configuration follows."
    } else if str_eq(kind, "Bundle") {
        "The index of a download: what it holds and where it came from."
    } else if str_eq(kind, "UiSchema") {
        "How the Portal arranges the form of one kind."
    } else if str_eq(kind, "Role") {
        "A named set of permissions."
    } else if str_eq(kind, "RoleBinding") {
        "Who holds which role, and where."
    } else if str_eq(kind, "Dashboard") {
        "A page of charts, maps and indicators over endpoints."
    } else if str_eq(kind, "Layer") {
        "A map layer a dashboard or an application draws."
    } else {
        ""
    }
}

/// The directories a relative path walks through from `stack`: `.` and empty segments stay,
/// `..` climbs one, anything else descends; nothing when it climbs out of the repository.
pub open spec fn walk_segments(stack: Seq<Seq<char>>, segs: Seq<Seq<char>>) -> Option<Seq<Seq<char>>>
    decreases segs.len(),
{
    if segs.len() == 0 {
        Some(stack)
    } else if segs[0].len() == 0 || segs[0] == "."@ {
        walk_segments(stack, segs.drop_first())
    } else if segs[0] == ".."@ {
        if stack.len() == 0 {
            None
        } else {
            walk_segments(stack.drop_last(), segs.drop_first())
        }
    } else {
        walk_segments(stack.push(segs[0]), segs.drop_first())
    }
}

/// A path written relative to a manifest, resolved against the manifest's own directory.
pub open spec fn beside_of(manifest_path: Seq<char>, relative: Seq<char>) -> Option<Seq<char>> {
    match walk_segments(split(manifest_path, '/').drop_last(), split(relative, '/')) {
        Some(dirs) => Some(join(dirs, "/"@)),
        None => None,
    }
}

/// A path written relative to a manifest, resolved against the manifest's own directory. A path
/// that climbs out of the repository answers `None`; one that climbs out of the project simply
/// finds no file, because only this project's files are looked in.
pub fn beside(manifest_path: &str, relative: &str) -> (r: Option<String>)
    ensures
        match r {
            Some(p) => beside_of(manifest_path@, relative@) == Some(p@),
            None => beside_of(manifest_path@, relative@) is None,
        },
{
    let mp = chars_of(manifest_path);
    let parts = split_chars(mp.as_slice(), '/');
    proof {
        crate::text::lemma_split_nonempty(manifest_path@, '/');
    }
    let ghost sp = split(manifest_path@, '/');
    assert(parts@.map_values(|p: Vec<char>| p@) =~= sp);
    let mut stack: Vec<Vec<char>> = Vec::new();
    let mut k: usize = 0;
    while k < parts.len() - 1
        invariant
            parts@.len() >= 1,
            k + 1 <= parts@.len(),
            parts@.map_values(|p: Vec<char>| p@) == sp,
            stack@.map_values(|p: Vec<char>| p@) == sp.subrange(0, k as int),
        decreases parts.len() - k,
    {
        let ghost before = stack@.map_values(|p: Vec<char>| p@);
        stack.push(parts[k].clone());
        assert(stack@.map_values(|p: Vec<char>| p@) =~= before.push(sp[k as int]));
        assert(sp.subrange(0, k + 1) =~= sp.subrange(0, k as int).push(sp[k as int]));
        k = k + 1;
    }
    assert(sp.subrange(0, k as int) =~= sp.drop_last());
    let rc = chars_of(relative);
    let segs = split_chars(rc.as_slice(), '/');
    let ghost ss = split(relative@, '/');
    let ghost start = sp.drop_last();
    assert(segs@.map_values(|p: Vec<char>| p@) =~= ss);
    assert(ss.subrange(0, ss.len() as int) =~= ss);
    let dot = chars_of(".");
    let dots = chars_of("..");
    let mut i: usize = 0;
    while i < segs.len()
        invariant
            i <= segs@.len() == ss.len(),
            ss == split(relative@, '/'),
            start == split(manifest_path@, '/').drop_last(),
            segs@.map_values(|p: Vec<char>| p@) == ss,
            dot@ == "."@,
            dots@ == ".."@,
            walk_segments(stack@.map_values(|p: Vec<char>| p@), ss.subrange(i as int, ss.len() as int))
                == walk_segments(start, ss),
        decreases segs.len() - i,
    {
        let ghost st = stack@.map_values(|p: Vec<char>| p@);
        let ghost rest = ss.subrange(i as int, ss.len() as int);
        assert(rest[0] == ss[i as int]);
        assert(segs@[i as int]@ == ss[i as int]);
        assert(rest.drop_first() =~= ss.subrange(i + 1, ss.len() as int));
        let seg = &segs[i];
        if seg.len() == 0 || seq_eq(seg.as_slice(), dot.as_slice()) {
        } else if seq_eq(seg.as_slice(), dots.as_slice()) {
            if stack.len() == 0 {
                proof {
                    reveal_strlit(".");
                    reveal_strlit("..");
                }
                return None;
            }
            stack.pop();
            proof {
                reveal_strlit(".");
                reveal_strlit("..");
            }
            assert(stack@.map_values(|p: Vec<char>| p@) =~= st.drop_last());
        } else {
            stack.push(seg.clone());
            assert(stack@.map_values(|p: Vec<char>| p@) =~= st.push(ss[i as int]));
        }
        i = i + 1;
    }
    let slash = chars_of("/");
    let joined = join_chars(&stack, slash.as_slice());
    Some(string_of(joined.as_slice()))
}


// ---------------------------------------------------------------------------------------
// The README of a complete export
// ---------------------------------------------------------------------------------------

/// Where a complete archive puts its README and its schemas. Both describe the bundle rather
/// than belonging to the project, so an import leaves them out.
pub const README_PATH: &'static str = "README.md";
pub const SCHEMAS_DIR: &'static str = "schemas/";

/// How many names of a kind the README lists before it only counts the rest.
pub const SHOWN: usize = 12;

/// What the README says of the download it opens.
pub struct IndexHeader {
    pub project: String,
    pub revision: String,
    pub exporter: String,
    /// How many files of the project the repository did not hand back as text.
    pub omitted: usize,
}

/// One data model's files, as a complete export carries them.
pub struct ModelFiles {
    pub classes: Vec<String>,
    pub linkml: Option<String>,
    pub json_schema: Option<JsonValue>,
    /// What could not be had, in words.
    pub missing: Vec<String>,
}

pub open spec fn intro_text(project: Seq<char>, revision: Seq<char>, exporter: Seq<char>) -> Seq<char> {
    "# Project "@ + project + "\n\nThe configuration of project `"@ + project
        + "` as the repository held it at revision `"@ + revision + "`, exported by "@ + exporter
        + ". It can be imported again as it is: `status` is removed and secret values are empty strings, while the references to secrets (`secretRef`) are kept.\n\n## What is where\n\n"@
}

pub open spec fn layout_text(project: Seq<char>, archive: bool) -> Seq<char> {
    if archive {
        "- `projects/"@ + project
            + "/`: the manifests (`apiVersion`, `kind`, `metadata`, `spec`) and the files beside them (Bento configuration, LinkML sources, generated schema artifacts).\n- `projects/"@
            + project
            + "/bundle.yaml`: the index of this download.\n- `schemas/kinds/{Kind}.schema.json`: the JSON Schema (draft-07) of each kind below; every field carries its description.\n- `schemas/models/{name}/`: each data model's LinkML source (`{name}.linkml.yaml`) and the JSON Schema of its entities (`{name}.schema.json`).\n"@
    } else {
        "- The manifests (`apiVersion`, `kind`, `metadata`, `spec`), one per YAML document or one per `items` entry of the JSON list.\n- `schemas.kinds`: the JSON Schema (draft-07) of each kind below; every field carries its description.\n- `schemas.models`: each data model's LinkML source (`linkml`) and the JSON Schema of its entities (`jsonSchema`).\n- In YAML these sit in the `spec` of the closing `kind: Bundle` document; in JSON, beside `items`.\n"@
    }
}

pub open spec fn quoted(name: Seq<char>) -> Seq<char> {
    "`"@ + name + "`"@
}

/// The names of a kind as its row lists them: the first `SHOWN`, quoted, then how many more.
pub open spec fn listed_names(names: Seq<Seq<char>>) -> Seq<char> {
    let shown = if names.len() > SHOWN {
        names.take(SHOWN as int)
    } else {
        names
    };
    join(shown.map_values(|n: Seq<char>| quoted(n)), ", "@) + if names.len() > SHOWN {
        " and "@ + decimal((names.len() - SHOWN) as nat) + " more"@
    } else {
        Seq::empty()
    }
}

pub open spec fn kind_schema(kind: Seq<char>, archive: bool) -> Seq<char> {
    if archive {
        "`schemas/kinds/"@ + kind + ".schema.json`"@
    } else {
        "`schemas.kinds."@ + kind + "`"@
    }
}

pub open spec fn kind_row(kind: Seq<char>, names: Seq<Seq<char>>, archive: bool) -> Seq<char> {
    "| "@ + kind + " | "@ + decimal(names.len()) + " ("@ + listed_names(names) + ") | "@ + about_of(kind)
        + " | "@ + kind_schema(kind, archive) + " |\n"@
}

/// One row per kind, in the order the kinds are given.
pub open spec fn kind_rows(by_kind: Seq<(String, Vec<String>)>, archive: bool) -> Seq<char>
    decreases by_kind.len(),
{
    if by_kind.len() == 0 {
        Seq::empty()
    } else {
        kind_rows(by_kind.drop_last(), archive) + kind_row(by_kind.last().0@, views(by_kind.last().1@), archive)
    }
}

pub open spec fn present(found: bool, place: Seq<char>) -> Seq<char> {
    if found {
        place
    } else {
        "missing"@
    }
}

pub open spec fn linkml_place(name: Seq<char>, archive: bool) -> Seq<char> {
    if archive {
        "`schemas/models/"@ + name + "/"@ + name + ".linkml.yaml`"@
    } else {
        "`schemas.models."@ + name + ".linkml`"@
    }
}

pub open spec fn schema_place(name: Seq<char>, archive: bool) -> Seq<char> {
    if archive {
        "`schemas/models/"@ + name + "/"@ + name + ".schema.json`"@
    } else {
        "`schemas.models."@ + name + ".jsonSchema`"@
    }
}

pub open spec fn model_row(name: Seq<char>, files: ModelFiles, archive: bool) -> Seq<char> {
    "| "@ + name + " | "@ + join(views(files.classes@), ", "@) + " | "@ + present(
        files.linkml is Some,
        linkml_place(name, archive),
    ) + " | "@ + present(files.json_schema is Some, schema_place(name, archive)) + " |\n"@
}

pub open spec fn model_rows(models: Seq<(String, ModelFiles)>, archive: bool) -> Seq<char>
    decreases models.len(),
{
    if models.len() == 0 {
        Seq::empty()
    } else {
        model_rows(models.drop_last(), archive) + model_row(models.last().0@, models.last().1, archive)
    }
}

pub open spec fn missing_of(name: Seq<char>, whys: Seq<Seq<char>>) -> Seq<Seq<char>> {
    whys.map_values(|why: Seq<char>| "- "@ + name + ": "@ + why)
}

/// What could not be had, model by model, one line each.
pub open spec fn missing_lines(models: Seq<(String, ModelFiles)>) -> Seq<Seq<char>>
    decreases models.len(),
{
    if models.len() == 0 {
        Seq::empty()
    } else {
        missing_lines(models.drop_last()) + missing_of(models.last().0@, views(models.last().1.missing@))
    }
}

pub open spec fn models_text(models: Seq<(String, ModelFiles)>, archive: bool) -> Seq<char> {
    if models.len() == 0 {
        Seq::empty()
    } else {
        "\n## Data models\n\n| Model | Entity types | LinkML | JSON Schema |\n|---|---|---|---|\n"@ + model_rows(
            models,
            archive,
        ) + if missing_lines(models).len() > 0 {
            "\n## Missing\n\n"@ + join(missing_lines(models), "\n"@) + "\n"@
        } else {
            Seq::empty()
        }
    }
}

pub open spec fn omitted_text(omitted: nat) -> Seq<char> {
    if omitted > 0 {
        "\n"@ + decimal(omitted)
            + " files of the project are not in this download: the repository did not hand them back as text.\n"@
    } else {
        Seq::empty()
    }
}

/// The README a complete export opens with: where everything is, a row per kind, a row per
/// data model with what could not be had, and how many files were left out.
pub open spec fn readme_text(
    header: IndexHeader,
    by_kind: Seq<(String, Vec<String>)>,
    models: Seq<(String, ModelFiles)>,
    archive: bool,
) -> Seq<char> {
    intro_text(header.project@, header.revision@, header.exporter@) + layout_text(header.project@, archive)
        + "\n## Kinds\n\n| Kind | Resources | What it is | Schema |\n|---|---|---|---|\n"@ + kind_rows(
        by_kind,
        archive,
    ) + models_text(models, archive) + omitted_text(header.omitted as nat)
}

/// The parts joined with `sep`.
pub fn join_strings(parts: &Vec<String>, sep: &str) -> (out: Vec<char>)
    ensures
        out@ == join(views(parts@), sep@),
{
    let ghost all = views(parts@);
    let mut out: Vec<char> = Vec::new();
    let mut i: usize = 0;
    while i < parts.len()
        invariant
            i <= parts@.len(),
            all == views(parts@),
            out@ == join(all.take(i as int), sep@),
        decreases parts.len() - i,
    {
        if i > 0 {
            append_str(&mut out, sep);
        }
        append_str(&mut out, parts[i].as_str());
        assert(all.take(i + 1).drop_last() =~= all.take(i as int));
        assert(all.take(i + 1).last() == parts@[i as int]@);
        i = i + 1;
    }
    assert(all.take(parts@.len() as int) =~= all);
    out
}

fn listed_of(names: &Vec<String>) -> (out: Vec<char>)
    ensures
        out@ == listed_names(views(names@)),
{
    let ghost all = views(names@);
    let n = if names.len() > SHOWN {
        SHOWN
    } else {
        names.len()
    };
    let ghost shown = if all.len() > SHOWN {
        all.take(SHOWN as int)
    } else {
        all
    };
    assert(shown =~= all.take(n as int));
    let mut out: Vec<char> = Vec::new();
    let mut i: usize = 0;
    while i < n
        invariant
            i <= n <= names@.len(),
            all == views(names@),
            out@ == join(all.take(i as int).map_values(|m: Seq<char>| quoted(m)), ", "@),
        decreases n - i,
    {
        if i > 0 {
            append_str(&mut out, ", ");
        }
        append_str(&mut out, "`");
        append_str(&mut out, names[i].as_str());
        append_str(&mut out, "`");
        let ghost q = all.take(i + 1).map_values(|m: Seq<char>| quoted(m));
        assert(q.drop_last() =~= all.take(i as int).map_values(|m: Seq<char>| quoted(m)));
        assert(q.last() == quoted(names@[i as int]@));
        if i == 0 {
            assert(q.len() == 1);
        }
        i = i + 1;
    }
    let ghost head = out@;
    assert(head == join(shown.map_values(|m: Seq<char>| quoted(m)), ", "@));
    if names.len() > SHOWN {
        let more = (names.len() - SHOWN) as u64;
        append_str(&mut out, " and ");
        let d = decimal_of(more);
        append_chars(&mut out, d.as_slice());
        append_str(&mut out, " more");
        assert(out@ =~= head + (" and "@ + decimal((all.len() - SHOWN) as nat) + " more"@));
    } else {
        assert(out@ =~= head + Seq::<char>::empty());
    }
    out
}

fn kind_row_of(kind: &String, names: &Vec<String>, archive: bool) -> (out: Vec<char>)
    ensures
        out@ == kind_row(kind@, views(names@), archive),
{
    let mut out = chars_of("| ");
    append_str(&mut out, kind.as_str());
    append_str(&mut out, " | ");
    let count = decimal_of(names.len() as u64);
    append_chars(&mut out, count.as_slice());
    append_str(&mut out, " (");
    let l = listed_of(names);
    append_chars(&mut out, l.as_slice());
    append_str(&mut out, ") | ");
    append_str(&mut out, about(kind.as_str()));
    append_str(&mut out, " | ");
    let ghost before = out@;
    if archive {
        append_str(&mut out, "`schemas/kinds/");
        append_str(&mut out, kind.as_str());
        append_str(&mut out, ".schema.json`");
    } else {
        append_str(&mut out, "`schemas.kinds.");
        append_str(&mut out, kind.as_str());
        append_str(&mut out, "`");
    }
    assert(out@ =~= before + kind_schema(kind@, archive));
    append_str(&mut out, " |\n");
    assert(views(names@).len() == names@.len());
    assert(out@ =~= kind_row(kind@, views(names@), archive));
    out
}

fn place_of(name: &str, archive: bool, linkml: bool) -> (out: Vec<char>)
    ensures
        out@ == if linkml {
            linkml_place(name@, archive)
        } else {
            schema_place(name@, archive)
        },
{
    let mut out: Vec<char>;
    if archive {
        out = chars_of("`schemas/models/");
        append_str(&mut out, name);
        append_str(&mut out, "/");
        append_str(&mut out, name);
        if linkml {
            append_str(&mut out, ".linkml.yaml`");
        } else {
            append_str(&mut out, ".schema.json`");
        }
    } else {
        out = chars_of("`schemas.models.");
        append_str(&mut out, name);
        if linkml {
            append_str(&mut out, ".linkml`");
        } else {
            append_str(&mut out, ".jsonSchema`");
        }
    }
    out
}

fn model_row_of(name: &String, files: &ModelFiles, archive: bool) -> (out: Vec<char>)
    ensures
        out@ == model_row(name@, *files, archive),
{
    let mut out = chars_of("| ");
    append_str(&mut out, name.as_str());
    append_str(&mut out, " | ");
    let classes = join_strings(&files.classes, ", ");
    append_chars(&mut out, classes.as_slice());
    append_str(&mut out, " | ");
    let ghost a = out@;
    if files.linkml.is_some() {
        let l = place_of(name.as_str(), archive, true);
        append_chars(&mut out, l.as_slice());
    } else {
        append_str(&mut out, "missing");
    }
    assert(out@ =~= a + present(files.linkml is Some, linkml_place(name@, archive)));
    append_str(&mut out, " | ");
    let ghost b = out@;
    if files.json_schema.is_some() {
        let l = place_of(name.as_str(), archive, false);
        append_chars(&mut out, l.as_slice());
    } else {
        append_str(&mut out, "missing");
    }
    assert(out@ =~= b + present(files.json_schema is Some, schema_place(name@, archive)));
    append_str(&mut out, " |\n");
    assert(out@ =~= model_row(name@, *files, archive));
    out
}

fn intro_of(header: &IndexHeader) -> (out: Vec<char>)
    ensures
        out@ == intro_text(header.project@, header.revision@, header.exporter@),
{
    let mut out = chars_of("# Project ");
    append_str(&mut out, header.project.as_str());
    append_str(&mut out, "\n\nThe configuration of project `");
    append_str(&mut out, header.project.as_str());
    append_str(&mut out, "` as the repository held it at revision `");
    append_str(&mut out, header.revision.as_str());
    append_str(&mut out, "`, exported by ");
    append_str(&mut out, header.exporter.as_str());
    append_str(
        &mut out,
        ". It can be imported again as it is: `status` is removed and secret values are empty strings, while the references to secrets (`secretRef`) are kept.\n\n## What is where\n\n",
    );
    assert(out@ =~= intro_text(header.project@, header.revision@, header.exporter@));
    out
}

fn layout_of(project: &str, archive: bool) -> (out: Vec<char>)
    ensures
        out@ == layout_text(project@, archive),
{
    if archive {
        let mut out = chars_of("- `projects/");
        append_str(&mut out, project);
        append_str(
            &mut out,
            "/`: the manifests (`apiVersion`, `kind`, `metadata`, `spec`) and the files beside them (Bento configuration, LinkML sources, generated schema artifacts).\n- `projects/",
        );
        append_str(&mut out, project);
        append_str(
            &mut out,
            "/bundle.yaml`: the index of this download.\n- `schemas/kinds/{Kind}.schema.json`: the JSON Schema (draft-07) of each kind below; every field carries its description.\n- `schemas/models/{name}/`: each data model's LinkML source (`{name}.linkml.yaml`) and the JSON Schema of its entities (`{name}.schema.json`).\n",
        );
        assert(out@ =~= layout_text(project@, archive));
        out
    } else {
        chars_of(
            "- The manifests (`apiVersion`, `kind`, `metadata`, `spec`), one per YAML document or one per `items` entry of the JSON list.\n- `schemas.kinds`: the JSON Schema (draft-07) of each kind below; every field carries its description.\n- `schemas.models`: each data model's LinkML source (`linkml`) and the JSON Schema of its entities (`jsonSchema`).\n- In YAML these sit in the `spec` of the closing `kind: Bundle` document; in JSON, beside `items`.\n",
        )
    }
}

fn kind_rows_of(by_kind: &Vec<(String, Vec<String>)>, archive: bool) -> (out: Vec<char>)
    ensures
        out@ == kind_rows(by_kind@, archive),
{
    let mut out: Vec<char> = Vec::new();
    let mut i: usize = 0;
    assert(by_kind@.take(0) =~= Seq::<(String, Vec<String>)>::empty());
    while i < by_kind.len()
        invariant
            i <= by_kind@.len(),
            out@ == kind_rows(by_kind@.take(i as int), archive),
        decreases by_kind.len() - i,
    {
        let row = kind_row_of(&by_kind[i].0, &by_kind[i].1, archive);
        append_chars(&mut out, row.as_slice());
        assert(by_kind@.take(i + 1).drop_last() =~= by_kind@.take(i as int));
        assert(by_kind@.take(i + 1).last() == by_kind@[i as int]);
        i = i + 1;
    }
    assert(by_kind@.take(by_kind@.len() as int) =~= by_kind@);
    out
}

fn missing_lines_of(models: &Vec<(String, ModelFiles)>) -> (lines: Vec<String>)
    ensures
        views(lines@) == missing_lines(models@),
{
    let mut lines: Vec<String> = Vec::new();
    let mut j: usize = 0;
    assert(models@.take(0) =~= Seq::<(String, ModelFiles)>::empty());
    assert(views(lines@) =~= missing_lines(models@.take(0)));
    while j < models.len()
        invariant
            j <= models@.len(),
            views(lines@) == missing_lines(models@.take(j as int)),
        decreases models.len() - j,
    {
        let name = &models[j].0;
        let files = &models[j].1;
        let ghost before = views(lines@);
        let mut k: usize = 0;
        assert(missing_of(name@, views(files.missing@).take(0)) =~= Seq::<Seq<char>>::empty());
        assert(before =~= before + missing_of(name@, views(files.missing@).take(0)));
        while k < files.missing.len()
            invariant
                k <= files.missing@.len(),
                views(lines@) == before + missing_of(name@, views(files.missing@).take(k as int)),
            decreases files.missing.len() - k,
        {
            let mut l = chars_of("- ");
            append_str(&mut l, name.as_str());
            append_str(&mut l, ": ");
            append_str(&mut l, files.missing[k].as_str());
            let ghost prev = views(lines@);
            lines.push(string_of(l.as_slice()));
            assert(views(lines@) =~= prev.push(l@));
            assert(missing_of(name@, views(files.missing@).take(k + 1)) =~= missing_of(
                name@,
                views(files.missing@).take(k as int),
            ).push("- "@ + name@ + ": "@ + files.missing@[k as int]@));
            k = k + 1;
        }
        assert(views(files.missing@).take(files.missing@.len() as int) =~= views(files.missing@));
        assert(models@.take(j + 1).drop_last() =~= models@.take(j as int));
        assert(models@.take(j + 1).last() == models@[j as int]);
        j = j + 1;
    }
    assert(models@.take(models@.len() as int) =~= models@);
    lines
}

fn model_rows_of(models: &Vec<(String, ModelFiles)>, archive: bool) -> (out: Vec<char>)
    ensures
        out@ == model_rows(models@, archive),
{
    let mut out: Vec<char> = Vec::new();
    let mut j: usize = 0;
    assert(models@.take(0) =~= Seq::<(String, ModelFiles)>::empty());
    while j < models.len()
        invariant
            j <= models@.len(),
            out@ == model_rows(models@.take(j as int), archive),
        decreases models.len() - j,
    {
        let row = model_row_of(&models[j].0, &models[j].1, archive);
        append_chars(&mut out, row.as_slice());
        assert(models@.take(j + 1).drop_last() =~= models@.take(j as int));
        assert(models@.take(j + 1).last() == models@[j as int]);
        j = j + 1;
    }
    assert(models@.take(models@.len() as int) =~= models@);
    out
}

fn models_of(models: &Vec<(String, ModelFiles)>, archive: bool) -> (out: Vec<char>)
    ensures
        out@ == models_text(models@, archive),
{
    let mut out: Vec<char> = Vec::new();
    if models.len() == 0 {
        return out;
    }
    append_str(&mut out, "\n## Data models\n\n| Model | Entity types | LinkML | JSON Schema |\n|---|---|---|---|\n");
    let rows = model_rows_of(models, archive);
    append_chars(&mut out, rows.as_slice());
    let lines = missing_lines_of(models);
    let ghost before = out@;
    if lines.len() > 0 {
        append_str(&mut out, "\n## Missing\n\n");
        let joined = join_strings(&lines, "\n");
        append_chars(&mut out, joined.as_slice());
        append_str(&mut out, "\n");
        assert(out@ =~= before + ("\n## Missing\n\n"@ + join(missing_lines(models@), "\n"@) + "\n"@));
    } else {
        assert(out@ =~= before + Seq::<char>::empty());
    }
    assert(out@ =~= models_text(models@, archive));
    out
}

fn omitted_of(omitted: usize) -> (out: Vec<char>)
    ensures
        out@ == omitted_text(omitted as nat),
{
    let mut out: Vec<char> = Vec::new();
    if omitted > 0 {
        append_str(&mut out, "\n");
        let d = decimal_of(omitted as u64);
        append_chars(&mut out, d.as_slice());
        append_str(
            &mut out,
            " files of the project are not in this download: the repository did not hand them back as text.\n",
        );
        assert(out@ =~= omitted_text(omitted as nat));
    }
    out
}

/// The README of a complete export, for the kinds and the data models it holds, each in name
/// order.
pub fn readme(
    header: &IndexHeader,
    by_kind: &Vec<(String, Vec<String>)>,
    models: &Vec<(String, ModelFiles)>,
    archive: bool,
) -> (out: String)
    ensures
        out@ == readme_text(*header, by_kind@, models@, archive),
{
    let mut out = intro_of(header);
    let layout = layout_of(header.project.as_str(), archive);
    append_chars(&mut out, layout.as_slice());
    append_str(&mut out, "\n## Kinds\n\n| Kind | Resources | What it is | Schema |\n|---|---|---|---|\n");
    let kinds = kind_rows_of(by_kind, archive);
    append_chars(&mut out, kinds.as_slice());
    let described = models_of(models, archive);
    append_chars(&mut out, described.as_slice());
    let left_out = omitted_of(header.omitted);
    append_chars(&mut out, left_out.as_slice());
    assert(out@ =~= readme_text(*header, by_kind@, models@, archive));
    string_of(out.as_slice())
}


// ---------------------------------------------------------------------------------------
// A reference to an endpoint of this organization
// ---------------------------------------------------------------------------------------

/// The endpoint a slug names among this organization's, as `(slug, project, name)` triples:
/// the last that carries it, as a map filled in order keeps it.
pub open spec fn slug_owner(endpoints: Seq<(String, String, String)>, slug: Seq<char>) -> Option<(Seq<char>, Seq<char>)>
    decreases endpoints.len(),
{
    if endpoints.len() == 0 {
        None
    } else if endpoints.last().0@ == slug {
        Some((endpoints.last().1@, endpoints.last().2@))
    } else {
        slug_owner(endpoints.drop_last(), slug)
    }
}

/// The organization's endpoints by slug: each `Endpoint` manifest that has a slug and a
/// project, in the order the mirror lists them.
pub open spec fn slugs_of(envs: Seq<Envelope>) -> Seq<(Seq<char>, Seq<char>, Seq<char>)>
    decreases envs.len(),
{
    if envs.len() == 0 {
        Seq::empty()
    } else {
        let before = slugs_of(envs.drop_last());
        let e = envs.last();
        match (get_text(e.spec, "slug"@), e.metadata.namespace) {
            (Some(slug), Some(ns)) => if e.kind@ == "Endpoint"@ {
                before.push((slug, ns@, e.metadata.name@))
            } else {
                before
            },
            _ => before,
        }
    }
}

pub open spec fn triple_views(t: Seq<(String, String, String)>) -> Seq<(Seq<char>, Seq<char>, Seq<char>)> {
    t.map_values(|x: (String, String, String)| (x.0@, x.1@, x.2@))
}

pub fn endpoints_by_slug(envs: &Vec<Envelope>) -> (out: Vec<(String, String, String)>)
    ensures
        triple_views(out@) == slugs_of(envs@),
{
    let mut out: Vec<(String, String, String)> = Vec::new();
    let mut i: usize = 0;
    assert(envs@.take(0) =~= Seq::<Envelope>::empty());
    assert(triple_views(out@) =~= slugs_of(envs@.take(0)));
    while i < envs.len()
        invariant
            i <= envs@.len(),
            triple_views(out@) == slugs_of(envs@.take(i as int)),
        decreases envs.len() - i,
    {
        let e = &envs[i];
        assert(envs@.take(i + 1).drop_last() =~= envs@.take(i as int));
        assert(envs@.take(i + 1).last() == envs@[i as int]);
        if str_eq(e.kind.as_str(), "Endpoint") {
            match (e.spec.text_at("slug"), &e.metadata.namespace) {
                (Some(slug), Some(ns)) => {
                    let ghost before = triple_views(out@);
                    out.push((slug.clone(), ns.clone(), e.metadata.name.clone()));
                    assert(triple_views(out@) =~= before.push((slug@, ns@, e.metadata.name@)));
                },
                _ => {},
            }
        }
        i = i + 1;
    }
    assert(envs@.take(envs@.len() as int) =~= envs@);
    out
}

fn owner_of_slug(endpoints: &Vec<(String, String, String)>, slug: &str) -> (r: Option<(String, String)>)
    ensures
        match r {
            Some(p) => slug_owner(endpoints@, slug@) == Some((p.0@, p.1@)),
            None => slug_owner(endpoints@, slug@) is None,
        },
{
    let want = chars_of(slug);
    let mut i: usize = endpoints.len();
    assert(endpoints@.take(endpoints@.len() as int) =~= endpoints@);
    while i > 0
        invariant
            i <= endpoints@.len(),
            want@ == slug@,
            slug_owner(endpoints@, slug@) == slug_owner(endpoints@.take(i as int), slug@),
        decreases i,
    {
        let k = i - 1;
        assert(endpoints@.take(i as int).drop_last() =~= endpoints@.take(k as int));
        assert(endpoints@.take(i as int).last() == endpoints@[k as int]);
        let c = chars_of(endpoints[k].0.as_str());
        if seq_eq(c.as_slice(), want.as_slice()) {
            return Some((endpoints[k].1.clone(), endpoints[k].2.clone()));
        }
        i = k;
    }
    None
}

/// An `endpointRef` naming a project's endpoint.
pub open spec fn endpoint_ref(v: JsonValue, project: Seq<char>, name: Seq<char>) -> bool {
    v matches JsonValue::Object(r) && r@.len() == 2 && crate::projects::text_member(r@[0], "project"@, project)
        && crate::projects::text_member(r@[1], "name"@, name)
}

/// What a reference reads as once it names its endpoint by name: no `endpointSlug`, an
/// `endpointRef` with the endpoint's project and name, every other member as before.
pub open spec fn referenced_by_name(before: JsonValue, after: JsonValue, project: Seq<char>, name: Seq<char>) -> bool {
    before matches JsonValue::Object(m0) && after matches JsonValue::Object(m1) && {
        &&& member(m1@, "endpointSlug"@) is None
        &&& member(m1@, "endpointRef"@) matches Some(r) && endpoint_ref(r, project, name)
        &&& forall|k: Seq<char>|
            k != "endpointSlug"@ && k != "endpointRef"@ ==> #[trigger] member(m1@, k) == member(m0@, k)
    }
}

/// A reference to an endpoint of this organization is written by name, which the loader
/// resolves wherever the bundle lands; one whose slug no endpoint here carries keeps its slug.
pub fn reference_by_name(spec: &mut JsonValue, endpoints: &Vec<(String, String, String)>)
    ensures
        match get_text(*old(spec), "endpointSlug"@) {
            Some(slug) => match slug_owner(endpoints@, slug) {
                Some(owner) => referenced_by_name(*old(spec), *final(spec), owner.0, owner.1),
                None => *final(spec) == *old(spec),
            },
            None => *final(spec) == *old(spec),
        },
{
    let owner = match spec.text_at("endpointSlug") {
        Some(slug) => owner_of_slug(endpoints, slug.as_str()),
        None => None,
    };
    let (project, name) = match owner {
        Some(o) => o,
        None => return,
    };
    match spec {
        JsonValue::Object(m) => {
            let ghost before = m@;
            let _ = take_member(m, "endpointSlug");
            let mut r: Vec<(String, JsonValue)> = Vec::new();
            r.push((string_of(chars_of("project").as_slice()), JsonValue::Str(project)));
            r.push((string_of(chars_of("name").as_slice()), JsonValue::Str(name)));
            proof {
                reveal_strlit("endpointSlug");
                reveal_strlit("endpointRef");
                assert("endpointSlug"@[8] != "endpointRef"@[8]);
            }
            set_member(m, "endpointRef", JsonValue::Object(r));
        },
        _ => {},
    }
}


// ---------------------------------------------------------------------------------------
// The files of an export
// ---------------------------------------------------------------------------------------

/// One file of the project as the repository handed it back: its path, its text, and the
/// manifest it holds when it holds one.
pub struct Exported {
    pub path: String,
    pub content: String,
    pub manifest: Option<Envelope>,
}

/// The directory of a path and the file in it, split at the last `/`.
pub open spec fn split_last(p: Seq<char>) -> Option<(Seq<char>, Seq<char>)> {
    let k = last_index(p, '/');
    if k >= 0 {
        Some((p.subrange(0, k), p.subrange(k + 1, p.len() as int)))
    } else {
        None
    }
}

/// The last segment of a path: what follows its last `/`, or all of it.
pub open spec fn last_segment(p: Seq<char>) -> Seq<char> {
    match split_last(p) {
        Some((_, f)) => f,
        None => p,
    }
}

/// Whether a manifest file owns a native file: it sits in the same directory, and either that
/// directory is the resource or the file is named after it.
pub open spec fn owns(native: Seq<char>, candidate: Exported) -> bool {
    match (split_last(native), candidate.manifest, split_last(candidate.path@)) {
        (Some((dir, file)), Some(env), Some((candidate_dir, _))) => candidate_dir == dir && (last_segment(dir)
            == env.metadata.name@ || starts_with(file, env.metadata.name@ + "."@)),
        _ => false,
    }
}

fn split_at_last(p: &str) -> (r: Option<(Vec<char>, Vec<char>)>)
    ensures
        match r {
            Some((d, f)) => split_last(p@) == Some((d@, f@)),
            None => split_last(p@) is None,
        },
{
    let c = chars_of(p);
    proof {
        crate::text::lemma_last_index(p@, '/');
    }
    match crate::text::find_last(c.as_slice(), '/') {
        Some(k) => {
            let n = c.len();
            Some((slice_of(c.as_slice(), 0, k), slice_of(c.as_slice(), k + 1, n)))
        },
        None => None,
    }
}

fn segment_last(p: &[char]) -> (out: Vec<char>)
    ensures
        out@ == last_segment(p@),
{
    let s = string_of(p);
    match split_at_last(s.as_str()) {
        Some((_, f)) => f,
        None => {
            let mut out: Vec<char> = Vec::new();
            append_chars(&mut out, p);
            out
        },
    }
}

/// The manifest a native file belongs to: the first of the files that owns it.
pub fn owner<'a>(native: &str, files: &'a Vec<Exported>) -> (r: Option<&'a Envelope>)
    ensures
        match r {
            Some(e) => exists|i: int|
                0 <= i < files@.len() && owns(native@, #[trigger] files@[i]) && files@[i].manifest == Some(*e)
                    && forall|j: int| 0 <= j < i ==> !owns(native@, #[trigger] files@[j]),
            None => forall|j: int| 0 <= j < files@.len() ==> !owns(native@, #[trigger] files@[j]),
        },
        match r {
            Some(e) => first_owner(native@, files@, 0) == Some(*e),
            None => first_owner(native@, files@, 0) is None,
        },
{
    proof {
        lemma_no_owner_without_directory(native@, files@, 0);
    }
    let (dir, file) = match split_at_last(native) {
        Some(parts) => parts,
        None => return None,
    };
    let dir_name = segment_last(dir.as_slice());
    let mut i: usize = 0;
    while i < files.len()
        invariant
            i <= files@.len(),
            split_last(native@) == Some((dir@, file@)),
            dir_name@ == last_segment(dir@),
            forall|j: int| 0 <= j < i ==> !owns(native@, #[trigger] files@[j]),
            first_owner(native@, files@, 0) == first_owner(native@, files@, i as int),
        decreases files.len() - i,
    {
        let candidate = &files[i];
        if let Some(env) = &candidate.manifest {
            if let Some((cdir, _)) = split_at_last(candidate.path.as_str()) {
                let name = chars_of(env.metadata.name.as_str());
                let mut dotted = chars_of(env.metadata.name.as_str());
                append_str(&mut dotted, ".");
                if seq_eq(cdir.as_slice(), dir.as_slice()) && (seq_eq(dir_name.as_slice(), name.as_slice())
                    || has_prefix(file.as_slice(), dotted.as_slice())) {
                    assert(owns(native@, files@[i as int]));
                    return Some(env);
                }
            }
        }
        assert(!owns(native@, files@[i as int]));
        i = i + 1;
    }
    None
}

/// The manifest of the first file from `i` on that owns a native file.
pub open spec fn first_owner(native: Seq<char>, files: Seq<Exported>, i: int) -> Option<Envelope>
    decreases files.len() - i,
{
    if i < 0 || i >= files.len() {
        None
    } else if owns(native, files[i]) {
        files[i].manifest
    } else {
        first_owner(native, files, i + 1)
    }
}

proof fn lemma_no_owner_without_directory(native: Seq<char>, files: Seq<Exported>, i: int)
    requires
        0 <= i,
    ensures
        split_last(native) is None ==> first_owner(native, files, i) is None,
    decreases files.len() - i,
{
    if i < files.len() {
        lemma_no_owner_without_directory(native, files, i + 1);
    }
}

/// Whether a file travels in an archive under the filters: a manifest when the filters ask for
/// it; a native file with the manifest that owns it, or under its own directory's kind and name
/// when none does.
pub open spec fn travels(
    catalogue: Seq<KindInfo>,
    files: Seq<Exported>,
    file: Exported,
    kinds: Option<Seq<Seq<char>>>,
    names: Option<Seq<Seq<char>>>,
) -> bool {
    match file.manifest {
        Some(env) => filters_match(env.kind@, env.metadata.name@, kinds, names),
        None => match first_owner(file.path@, files, 0) {
            Some(env) => filters_match(env.kind@, env.metadata.name@, kinds, names),
            None => native_filters_match(catalogue, file.path@, kinds, names),
        },
    }
}

/// Which files of the project an archive carries, file by file.
pub fn travelling(
    catalogue: &Vec<KindInfo>,
    files: &Vec<Exported>,
    kinds: Option<&Vec<String>>,
    names: Option<&Vec<String>>,
) -> (out: Vec<bool>)
    ensures
        out@.len() == files@.len(),
        forall|i: int|
            0 <= i < files@.len() ==> #[trigger] out@[i] == travels(
                catalogue@,
                files@,
                files@[i],
                opt_views(kinds),
                opt_views(names),
            ),
{
    let mut out: Vec<bool> = Vec::new();
    let mut i: usize = 0;
    while i < files.len()
        invariant
            i <= files@.len(),
            out@.len() == i,
            forall|k: int|
                0 <= k < i ==> #[trigger] out@[k] == travels(
                    catalogue@,
                    files@,
                    files@[k],
                    opt_views(kinds),
                    opt_views(names),
                ),
        decreases files.len() - i,
    {
        let f = &files[i];
        let t = match &f.manifest {
            Some(env) => matches_filters(env, kinds, names),
            None => match owner(f.path.as_str(), files) {
                Some(env) => matches_filters(env, kinds, names),
                None => native_matches_filters(catalogue, f.path.as_str(), kinds, names),
            },
        };
        out.push(t);
        i = i + 1;
    }
    out
}

/// The formats an export is written in.
#[derive(Debug, Clone, Copy, PartialEq, Eq, Structural)]
pub enum ExportFormat {
    Yaml,
    Json,
    Zip,
}

/// The format an export asks for, `yaml` when it names none.
pub fn export_format(format: Option<&str>) -> (r: Result<ExportFormat, ApiError>)
    ensures
        match format {
            None => r == Ok::<ExportFormat, ApiError>(ExportFormat::Yaml),
            Some(f) => if f@ == "yaml"@ {
                r == Ok::<ExportFormat, ApiError>(ExportFormat::Yaml)
            } else if f@ == "json"@ {
                r == Ok::<ExportFormat, ApiError>(ExportFormat::Json)
            } else if f@ == "zip"@ {
                r == Ok::<ExportFormat, ApiError>(ExportFormat::Zip)
            } else {
                r matches Err(ApiError::BadRequest(m)) && m@ == "format '"@ + f@ + "' is not yaml, json or zip"@
            },
        },
{
    match format {
        None => Ok(ExportFormat::Yaml),
        Some(f) => {
            if str_eq(f, "yaml") {
                Ok(ExportFormat::Yaml)
            } else if str_eq(f, "json") {
                Ok(ExportFormat::Json)
            } else if str_eq(f, "zip") {
                Ok(ExportFormat::Zip)
            } else {
                let mut m = chars_of("format '");
                append_str(&mut m, f);
                append_str(&mut m, "' is not yaml, json or zip");
                Err(ApiError::BadRequest(string_of(m.as_slice())))
            }
        },
    }
}

/// The file a download is saved as: the project, the first seven characters of the revision,
/// and the format's extension.
pub fn download_name(project: &str, revision: &str, extension: &str) -> (n: String)
    ensures
        n@ == project@ + "-"@ + (if revision@.len() > 7 {
            revision@.take(7)
        } else {
            revision@
        }) + "."@ + extension@,
{
    let r = chars_of(revision);
    let k = if r.len() > 7 {
        7
    } else {
        r.len()
    };
    let short = slice_of(r.as_slice(), 0, k);
    let mut m = chars_of(project);
    append_str(&mut m, "-");
    append_chars(&mut m, short.as_slice());
    append_str(&mut m, ".");
    append_str(&mut m, extension);
    assert(r@.len() <= 7 ==> short@ =~= r@);
    string_of(m.as_slice())
}

/// The checksum entry of one exported file: its path and the SHA-256 of its bytes, in lower
/// case hexadecimal.
pub open spec fn file_entry(file: Exported) -> (Seq<char>, Seq<char>) {
    (file.path@, crate::text::hex_bytes(crate::import::sha256(encode_utf8(file.content@))))
}

pub open spec fn pair_views(s: Seq<(String, String)>) -> Seq<(Seq<char>, Seq<char>)> {
    s.map_values(|p: (String, String)| (p.0@, p.1@))
}

/// Entries in path order.
pub open spec fn by_path(s: Seq<(Seq<char>, Seq<char>)>) -> bool {
    forall|a: int, b: int| 0 <= a < b < s.len() ==> !lex_lt((#[trigger] s[b]).0, (#[trigger] s[a]).0)
}

/// The checksum of every file the bundle carries, over the bytes as exported, in path order.
pub fn bundle_files(included: &Vec<Exported>) -> (out: Vec<(String, String)>)
    ensures
        pair_views(out@).to_multiset() == included@.map_values(|f: Exported| file_entry(f)).to_multiset(),
        by_path(pair_views(out@)),
{
    let ghost entries = included@.map_values(|f: Exported| file_entry(f));
    let mut out: Vec<(String, String)> = Vec::new();
    let mut i: usize = 0;
    assert(pair_views(out@) =~= Seq::<(Seq<char>, Seq<char>)>::empty());
    assert(entries.take(0) =~= Seq::<(Seq<char>, Seq<char>)>::empty());
    while i < included.len()
        invariant
            i <= included@.len(),
            entries == included@.map_values(|f: Exported| file_entry(f)),
            pair_views(out@).to_multiset() == entries.take(i as int).to_multiset(),
            by_path(pair_views(out@)),
        decreases included.len() - i,
    {
        let f = &included[i];
        let text = f.content.as_str();
        let bytes = text.as_bytes();
        assert(bytes@ == encode_utf8(f.content@));
        let digest = crate::import::sha256_digest(bytes);
        let hex = crate::text::hex_of(digest.as_slice());
        let x = (f.path.clone(), string_of(hex.as_slice()));
        let ghost vx = (x.0@, x.1@);
        assert(vx == entries[i as int]);
        let ghost s = pair_views(out@);
        let key = chars_of(f.path.as_str());
        let mut p: usize = 0;
        while p < out.len() && !less_than(key.as_slice(), chars_of(out[p].0.as_str()).as_slice())
            invariant
                p <= out@.len(),
                s == pair_views(out@),
                key@ == vx.0,
                forall|k: int| 0 <= k < p ==> !lex_lt(vx.0, (#[trigger] s[k]).0),
            decreases out.len() - p,
        {
            p = p + 1;
        }
        out.insert(p, x);
        proof {
            let t = pair_views(out@);
            assert(t =~= s.insert(p as int, vx));
            assert forall|a: int, b: int| 0 <= a < b < t.len() implies !lex_lt((#[trigger] t[b]).0, (#[trigger] t[a]).0) by {
                if b < p {
                    assert(t[a] == s[a] && t[b] == s[b]);
                } else if b == p {
                    assert(t[a] == s[a] && t[b] == vx);
                } else if a < p {
                    assert(t[a] == s[a] && t[b] == s[b - 1]);
                    if lex_lt(s[b - 1].0, s[a].0) {
                        assert(!lex_lt(s[b - 1].0, s[a].0));
                    }
                } else if a == p {
                    assert(t[a] == vx && t[b] == s[b - 1]);
                    assert(lex_lt(vx.0, s[p as int].0));
                    if lex_lt(s[b - 1].0, vx.0) {
                        crate::text::lemma_lex_transitive(s[b - 1].0, vx.0, s[p as int].0);
                        if b - 1 > p {
                            assert(!lex_lt(s[b - 1].0, s[p as int].0));
                        } else {
                            crate::text::lemma_lex_irreflexive(s[p as int].0);
                        }
                    }
                } else {
                    assert(t[a] == s[a - 1] && t[b] == s[b - 1]);
                }
            }
            vstd::seq_lib::to_multiset_insert(s, p as int, vx);
            assert(entries.take(i + 1) =~= entries.take(i as int).push(vx));
            vstd::seq_lib::to_multiset_build(entries.take(i as int), vx);
        }
        i = i + 1;
    }
    assert(entries.take(included@.len() as int) =~= entries);
    out
}


// ---------------------------------------------------------------------------------------
// A manifest as an export serves it
// ---------------------------------------------------------------------------------------

/// The pairs of a map kept as pairs, without those whose key is one of `keys`.
pub open spec fn without_keys(pairs: Seq<(String, String)>, keys: Seq<Seq<char>>) -> Seq<(String, String)>
    decreases pairs.len(),
{
    if pairs.len() == 0 {
        Seq::empty()
    } else {
        let before = without_keys(pairs.drop_last(), keys);
        if keys.contains(pairs.last().0@) {
            before
        } else {
            before.push(pairs.last())
        }
    }
}

/// How a reference reads after an export names it: by name when an endpoint of this
/// organization carries its slug, as it was otherwise.
pub open spec fn named_reference(before: JsonValue, after: JsonValue, endpoints: Seq<(String, String, String)>) -> bool {
    match get_text(before, "endpointSlug"@) {
        Some(slug) => match slug_owner(endpoints, slug) {
            Some(owner) => referenced_by_name(before, after, owner.0, owner.1),
            None => after == before,
        },
        None => after == before,
    }
}

/// A manifest as an export serves it: no status (the platform's own computation), none of the
/// annotations the build lane writes (`built`: an image digest is this environment's fact),
/// every secret value emptied, and a shared space's reference to an endpoint of this
/// organization named by name. Everything else is as it was.
pub fn serve_manifest(env: &mut Envelope, built: &Vec<String>, endpoints: &Vec<(String, String, String)>)
    ensures
        final(env).phase is None,
        final(env).api_version == old(env).api_version,
        final(env).kind == old(env).kind,
        final(env).metadata.name == old(env).metadata.name,
        final(env).metadata.namespace == old(env).metadata.namespace,
        final(env).metadata.labels == old(env).metadata.labels,
        final(env).metadata.title == old(env).metadata.title,
        final(env).metadata.description == old(env).metadata.description,
        final(env).metadata.annotations@ == without_keys(old(env).metadata.annotations@, views(built@)),
        exists|stripped: JsonValue|
            secrets_emptied(old(env).spec, stripped) && if old(env).kind@ == "SharedSpaceReference"@ {
                named_reference(stripped, final(env).spec, endpoints@)
            } else {
                final(env).spec == stripped
            },
{
    env.phase = None;
    let ghost before = env.metadata.annotations@;
    let mut kept: Vec<(String, String)> = Vec::new();
    let mut i: usize = 0;
    assert(before.take(0) =~= Seq::<(String, String)>::empty());
    while i < env.metadata.annotations.len()
        invariant
            i <= before.len(),
            before == env.metadata.annotations@,
            kept@ == without_keys(before.take(i as int), views(built@)),
        decreases before.len() - i,
    {
        assert(before.take(i + 1).drop_last() =~= before.take(i as int));
        assert(before.take(i + 1).last() == before[i as int]);
        if !listed(built, &env.metadata.annotations[i].0) {
            let k = env.metadata.annotations[i].0.clone();
            let v = env.metadata.annotations[i].1.clone();
            kept.push((k, v));
            assert(kept@.last() == before[i as int]);
        }
        i = i + 1;
    }
    assert(before.take(before.len() as int) =~= before);
    env.metadata.annotations = kept;
    strip_secret_values(&mut env.spec);
    let ghost stripped = env.spec;
    if str_eq(env.kind.as_str(), "SharedSpaceReference") {
        reference_by_name(&mut env.spec, endpoints);
    }
    assert(secrets_emptied(old(env).spec, stripped));
}

} // verus!
