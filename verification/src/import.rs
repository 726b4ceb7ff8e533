//! Importing a bundle into a project: the conflict policy, the names and ids a
//! bundle is rewritten to, and the checksums that say whether a transfer arrived whole.

use vstd::prelude::*;
use crate::change::Lane;
use crate::error::ApiError;
use crate::json::{get, get_text, member, views, JsonValue};
use vstd::utf8::encode_utf8;
use sha2::Digest;
use crate::resource::{by_plural, kind_by_plural, Envelope, KindInfo};
use crate::text::{
    append_chars, append_str, ascii_alnum, chars_of, decimal, decimal_of, has_prefix, hex_bytes,
    hex_of, is_ascii_alnum, join, join_chars, lex_lt, seq_eq, slice_of, split, split_chars,
    starts_with, str_eq, string_less, string_of,
};

verus! {

// ---------------------------------------------------------------------------------------
// The conflict policy
// ---------------------------------------------------------------------------------------

/// What to do with a resource the project already has.
#[derive(Debug, Clone, Copy, PartialEq, Eq)]
pub enum ConflictPolicy {
    /// Refuse the whole import (the default).
    Fail,
    /// Leave the existing resource alone and import the rest.
    Skip,
    /// Overwrite the existing resource with the imported one.
    Replace,
    /// Import under a new name, rewriting every reference in the bundle that named it.
    Rename,
}

pub open spec fn policy_named(raw: Seq<char>) -> Option<ConflictPolicy> {
    if raw == "fail"@ {
        Some(ConflictPolicy::Fail)
    } else if raw == "skip"@ {
        Some(ConflictPolicy::Skip)
    } else if raw == "replace"@ {
        Some(ConflictPolicy::Replace)
    } else if raw == "rename"@ {
        Some(ConflictPolicy::Rename)
    } else {
        None
    }
}

impl ConflictPolicy {
    pub fn parse(raw: &str) -> (r: Result<ConflictPolicy, ApiError>)
        ensures
            match (r, policy_named(raw@)) {
                (Ok(p), Some(q)) => p == q,
                (Err(ApiError::BadRequest(m)), None) => m@ == "conflictPolicy '"@ + raw@
                    + "' is not fail, skip, replace or rename (MF-23)"@,
                _ => false,
            },
    {
        if str_eq(raw, "fail") {
            Ok(ConflictPolicy::Fail)
        } else if str_eq(raw, "skip") {
            Ok(ConflictPolicy::Skip)
        } else if str_eq(raw, "replace") {
            Ok(ConflictPolicy::Replace)
        } else if str_eq(raw, "rename") {
            Ok(ConflictPolicy::Rename)
        } else {
            let mut m = chars_of("conflictPolicy '");
            append_str(&mut m, raw);
            append_str(&mut m, "' is not fail, skip, replace or rename (MF-23)");
            Err(ApiError::BadRequest(string_of(m.as_slice())))
        }
    }
}

// ---------------------------------------------------------------------------------------
// The report
// ---------------------------------------------------------------------------------------

/// One file of a bundle as the import verified it.
#[derive(Debug)]
pub struct Verified {
    /// The path the bundle index gave the file.
    pub path: String,
    /// Whether the checksum matched.
    pub equal: bool,
}

/// What one import would do, answered on a dry run and echoed in the merge request body.
#[derive(Debug)]
pub struct ImportReport {
    pub created: Vec<String>,
    pub replaced: Vec<String>,
    pub skipped: Vec<String>,
    /// Resources imported under a new name, `old -> new`, in key order.
    pub renamed: Vec<(String, String)>,
    pub native_files: usize,
    pub lane: Lane,
    pub source: Option<String>,
    pub verified: Vec<Verified>,
}

pub open spec fn count_equal(v: Seq<Verified>) -> nat
    decreases v.len(),
{
    if v.len() == 0 {
        0
    } else {
        count_equal(v.drop_last()) + if v.last().equal {
            1nat
        } else {
            0nat
        }
    }
}

pub proof fn lemma_count_equal_bound(v: Seq<Verified>)
    ensures
        count_equal(v) <= v.len(),
    decreases v.len(),
{
    if v.len() > 0 {
        lemma_count_equal_bound(v.drop_last());
    }
}

/// `n of m files equal`, or nothing when the bundle carried no checksums.
pub open spec fn summary_of(v: Seq<Verified>) -> Option<Seq<char>> {
    if v.len() == 0 {
        None
    } else {
        Some(decimal(count_equal(v)) + " of "@ + decimal(v.len()) + " files equal"@)
    }
}

impl ImportReport {
    /// `n of m files equal`, the line the `Change` body leads with, or `None` when the
    /// bundle carried no checksums.
    pub fn verification_summary(&self) -> (r: Option<String>)
        ensures
            match (r, summary_of(self.verified@)) {
                (Some(s), Some(t)) => s@ == t,
                (None, None) => true,
                _ => false,
            },
    {
        if self.verified.len() == 0 {
            return None;
        }
        let mut equal: usize = 0;
        let mut i: usize = 0;
        while i < self.verified.len()
            invariant
                i <= self.verified@.len(),
                equal == count_equal(self.verified@.subrange(0, i as int)),
            decreases self.verified.len() - i,
        {
            proof {
                lemma_count_equal_bound(self.verified@.subrange(0, i as int));
            }
            assert(self.verified@.subrange(0, i + 1).drop_last() =~= self.verified@.subrange(
                0,
                i as int,
            ));
            if self.verified[i].equal {
                equal = equal + 1;
            }
            i = i + 1;
        }
        assert(self.verified@.subrange(0, self.verified@.len() as int) =~= self.verified@);
        let mut out = decimal_of(equal as u64);
        append_str(&mut out, " of ");
        let total = decimal_of(self.verified.len() as u64);
        append_chars(&mut out, total.as_slice());
        append_str(&mut out, " files equal");
        Some(string_of(out.as_slice()))
    }
}

// ---------------------------------------------------------------------------------------
// Names
// ---------------------------------------------------------------------------------------

pub open spec fn name_char(c: char) -> bool {
    is_ascii_alnum(c) || c == '-'
}

/// The characters of `s` a name may carry.
pub open spec fn name_chars(s: Seq<char>) -> Seq<char>
    decreases s.len(),
{
    if s.len() == 0 {
        Seq::empty()
    } else if name_char(s.last()) {
        name_chars(s.drop_last()).push(s.last())
    } else {
        name_chars(s.drop_last())
    }
}

/// The name a renamed resource takes: the original suffixed with where it came from.
pub open spec fn renamed_as(name: Seq<char>, origin: Seq<char>) -> Seq<char> {
    let suffix = name_chars(origin);
    if suffix.len() == 0 {
        name + "-imported"@
    } else {
        name + "-"@ + suffix
    }
}

/// The name a renamed resource takes: the original suffixed with where it came from, so
/// importing the same bundle twice lands on the same name instead of `-1`, `-2`, `-3`.
pub fn renamed(name: &str, origin: &str) -> (r: String)
    ensures
        r@ == renamed_as(name@, origin@),
{
    let o = chars_of(origin);
    let mut suffix: Vec<char> = Vec::new();
    let mut i: usize = 0;
    while i < o.len()
        invariant
            i <= o@.len(),
            suffix@ == name_chars(o@.subrange(0, i as int)),
        decreases o.len() - i,
    {
        assert(o@.subrange(0, i + 1).drop_last() =~= o@.subrange(0, i as int));
        let c = o[i];
        if ascii_alnum(c) || c == '-' {
            suffix.push(c);
        }
        i = i + 1;
    }
    assert(o@.subrange(0, o@.len() as int) =~= o@);
    let mut out = chars_of(name);
    if suffix.len() == 0 {
        append_str(&mut out, "-imported");
    } else {
        append_str(&mut out, "-");
        append_chars(&mut out, suffix.as_slice());
    }
    string_of(out.as_slice())
}

/// One label of a domain name: letters, digits and inner hyphens, at most 63 of them.
pub open spec fn domain_label(l: Seq<char>) -> bool {
    &&& l.len() > 0
    &&& l.len() <= 63
    &&& forall|i: int| 0 <= i < l.len() ==> name_char(#[trigger] l[i])
    &&& l[0] != '-'
    &&& l.last() != '-'
}

/// Whether a string is a domain name the URN scheme can carry: labels of letters, digits and
/// hyphens, separated by dots, 253 characters at most. (Every character that passes is ASCII,
/// so its length in characters is its length in bytes.)
pub open spec fn domain_name(v: Seq<char>) -> bool {
    &&& v.len() > 0
    &&& v.len() <= 253
    &&& forall|k: int| 0 <= k < split(v, '.').len() ==> domain_label(#[trigger] split(v, '.')[k])
}

fn label_ok(l: &Vec<char>) -> (b: bool)
    ensures
        b == domain_label(l@),
{
    if l.len() == 0 || l.len() > 63 {
        return false;
    }
    let mut i: usize = 0;
    while i < l.len()
        invariant
            i <= l@.len(),
            forall|k: int| 0 <= k < i ==> name_char(#[trigger] l@[k]),
        decreases l.len() - i,
    {
        if !(ascii_alnum(l[i]) || l[i] == '-') {
            return false;
        }
        i = i + 1;
    }
    l[0] != '-' && l[l.len() - 1] != '-'
}

/// Whether a string is a domain name the URN scheme can carry: labels of letters, digits and
/// hyphens, separated by dots. A `:` would split an id into a segment nobody meant.
pub fn is_domain(value: &str) -> (b: bool)
    ensures
        b == domain_name(value@),
{
    let v = chars_of(value);
    if v.len() == 0 || v.len() > 253 {
        return false;
    }
    let labels = split_chars(v.as_slice(), '.');
    let mut k: usize = 0;
    while k < labels.len()
        invariant
            k <= labels@.len(),
            v@ == value@,
            labels@.len() == split(v@, '.').len(),
            forall|m: int| 0 <= m < labels@.len() ==> #[trigger] labels@[m]@ == split(v@, '.')[m],
            forall|m: int| 0 <= m < k ==> domain_label(#[trigger] split(v@, '.')[m]),
        decreases labels.len() - k,
    {
        assert(labels@[k as int]@ == split(v@, '.')[k as int]);
        if !label_ok(&labels[k]) {
            assert(!domain_label(split(v@, '.')[k as int]));
            return false;
        }
        k = k + 1;
    }
    true
}

// ---------------------------------------------------------------------------------------
// Paths
// ---------------------------------------------------------------------------------------

/// `projects/<anything>/rest` as `projects/<project>/rest`; any other path under
/// `projects/<project>/`.
pub open spec fn reprojected(path: Seq<char>, project: Seq<char>) -> Seq<char> {
    let parts = split(path, '/');
    if parts.len() >= 2 && parts[0] == "projects"@ {
        "projects/"@ + project + "/"@ + join(parts.subrange(2, parts.len() as int), "/"@)
    } else {
        "projects/"@ + project + "/"@ + path
    }
}

/// `projects/<anything>/rest` becomes `projects/<project>/rest`, so an archive from another
/// instance lands in this project rather than recreating the one it was exported from.
pub fn reproject(path: &str, project: &str) -> (r: String)
    ensures
        r@ == reprojected(path@, project@),
{
    let p = chars_of(path);
    let parts = split_chars(p.as_slice(), '/');
    let ghost sp = split(path@, '/');
    let mut out = chars_of("projects/");
    append_str(&mut out, project);
    append_str(&mut out, "/");
    let projects = chars_of("projects");
    if parts.len() >= 2 && seq_eq(parts[0].as_slice(), projects.as_slice()) {
        assert(parts@[0]@ == sp[0]);
        let mut rest: Vec<Vec<char>> = Vec::new();
        let mut k: usize = 2;
        while k < parts.len()
            invariant
                2 <= k <= parts@.len(),
                parts@.len() == sp.len(),
                forall|m: int| 0 <= m < parts@.len() ==> #[trigger] parts@[m]@ == sp[m],
                rest@.map_values(|v: Vec<char>| v@) == sp.subrange(2, k as int),
            decreases parts.len() - k,
        {
            let ghost before = rest@.map_values(|v: Vec<char>| v@);
            rest.push(parts[k].clone());
            assert(rest@.map_values(|v: Vec<char>| v@) =~= before.push(sp[k as int]));
            assert(sp.subrange(2, k + 1) =~= sp.subrange(2, k as int).push(sp[k as int]));
            k = k + 1;
        }
        let slash = chars_of("/");
        let joined = join_chars(&rest, slash.as_slice());
        append_chars(&mut out, joined.as_slice());
    } else {
        if parts.len() >= 2 {
            assert(parts@[0]@ == sp[0]);
        }
        append_chars(&mut out, p.as_slice());
    }
    string_of(out.as_slice())
}

/// The kind a native file belongs to: the plural directory after `projects/{project}/`, or
/// after `spaces/{space}/` for the kinds that live under a space.
pub open spec fn native_kind_of(catalogue: Seq<KindInfo>, path: Seq<char>) -> Option<Seq<char>> {
    let parts = split(path, '/');
    if parts.len() < 3 {
        None
    } else if parts[2] == "spaces"@ {
        if parts.len() < 5 {
            None
        } else {
            kind_by_plural(catalogue, parts[4])
        }
    } else {
        kind_by_plural(catalogue, parts[2])
    }
}

pub fn native_kind(catalogue: &Vec<KindInfo>, path: &str) -> (r: Option<String>)
    ensures
        match r {
            Some(k) => native_kind_of(catalogue@, path@) == Some(k@),
            None => native_kind_of(catalogue@, path@) is None,
        },
{
    let p = chars_of(path);
    let parts = split_chars(p.as_slice(), '/');
    let ghost sp = split(path@, '/');
    if parts.len() < 3 {
        return None;
    }
    let spaces = chars_of("spaces");
    assert(parts@[2]@ == sp[2]);
    if seq_eq(parts[2].as_slice(), spaces.as_slice()) {
        if parts.len() < 5 {
            return None;
        }
        assert(parts@[4]@ == sp[4]);
        by_plural(catalogue, parts[4].as_slice())
    } else {
        by_plural(catalogue, parts[2].as_slice())
    }
}

// ---------------------------------------------------------------------------------------
// Ids
// ---------------------------------------------------------------------------------------

/// The characters a regular expression gives a meaning to (`regex_syntax::is_meta_character`).
pub open spec fn is_meta(c: char) -> bool {
    c == '\\' || c == '.' || c == '+' || c == '*' || c == '?' || c == '(' || c == ')' || c == '|'
        || c == '[' || c == ']' || c == '{' || c == '}' || c == '^' || c == '$' || c == '#' || c
        == '&' || c == '-' || c == '~'
}

/// `regex::escape`: every meta character preceded by a backslash.
pub open spec fn regex_escaped(s: Seq<char>) -> Seq<char>
    decreases s.len(),
{
    if s.len() == 0 {
        Seq::empty()
    } else {
        regex_escaped(s.drop_last()) + if is_meta(s.last()) {
            seq!['\\', s.last()]
        } else {
            seq![s.last()]
        }
    }
}

/// `regex::escape`, whose source writes a backslash before each meta character
/// (`\ . + * ? ( ) | [ ] { } ^ $ # & - ~`) and copies every other character.
#[verifier::external_body]
fn regex_escape(text: &str) -> (r: String)
    ensures
        r@ == regex_escaped(text@),
{
    regex::escape(text)
}

/// One id, or one anchored `idPattern`, with its organisation domain replaced,
/// or nothing when it names no space of the bundle or already names the domain.
pub open spec fn remapped_urn(
    urn: Seq<char>,
    domain: Seq<char>,
    spaces: Seq<Seq<char>>,
) -> Option<Seq<char>> {
    let pattern = starts_with(urn, "^"@);
    let body = if pattern {
        urn.subrange("^"@.len() as int, urn.len() as int)
    } else {
        urn
    };
    let segments = split(body, ':');
    let replacement = if pattern {
        regex_escaped(domain)
    } else {
        domain
    };
    if !starts_with(body, "urn:ngsi-ld:"@) {
        None
    } else if segments.len() < 6 {
        None
    } else if !spaces.contains(segments[4]) {
        None
    } else if segments[3] == replacement {
        None
    } else {
        let joined = join(segments.update(3, replacement), ":"@);
        Some(
            if pattern {
                "^"@ + joined
            } else {
                joined
            },
        )
    }
}

fn contains_view(spaces: &Vec<String>, seg: &Vec<char>) -> (b: bool)
    ensures
        b == views(spaces@).contains(seg@),
{
    let mut i: usize = 0;
    while i < spaces.len()
        invariant
            i <= spaces@.len(),
            forall|k: int| 0 <= k < i ==> spaces@[k]@ != seg@,
        decreases spaces.len() - i,
    {
        let s = chars_of(spaces[i].as_str());
        if seq_eq(s.as_slice(), seg.as_slice()) {
            assert(views(spaces@)[i as int] == seg@);
            return true;
        }
        i = i + 1;
    }
    assert(!views(spaces@).contains(seg@)) by {
        if views(spaces@).contains(seg@) {
            let k = choose|k: int| 0 <= k < views(spaces@).len() && views(spaces@)[k] == seg@;
            assert(spaces@[k]@ == seg@);
        }
    }
    false
}

/// One id, or one anchored `idPattern`, with its organisation domain replaced.
///
/// A pattern is a URN prefix with `^` in front and the dots of the domain escaped, which is why
/// the replacement escapes: a Policy or a registration anchored on the source organisation
/// would otherwise keep routing there after the move.
pub fn remap_urn(urn: &str, domain: &str, spaces: &Vec<String>) -> (r: Option<String>)
    ensures
        match r {
            Some(s) => remapped_urn(urn@, domain@, views(spaces@)) == Some(s@),
            None => remapped_urn(urn@, domain@, views(spaces@)) is None,
        },
{
    let u = chars_of(urn);
    let caret = chars_of("^");
    let pattern = has_prefix(u.as_slice(), caret.as_slice());
    let body = if pattern {
        slice_of(u.as_slice(), caret.len(), u.len())
    } else {
        u.clone()
    };
    let prefix = chars_of("urn:ngsi-ld:");
    if !has_prefix(body.as_slice(), prefix.as_slice()) {
        return None;
    }
    let mut segments = split_chars(body.as_slice(), ':');
    let ghost sp = split(body@, ':');
    if segments.len() < 6 {
        return None;
    }
    assert(segments@[4]@ == sp[4]);
    assert(segments@[3]@ == sp[3]);
    if !contains_view(spaces, &segments[4]) {
        return None;
    }
    let replacement = if pattern {
        let escaped = regex_escape(domain);
        chars_of(escaped.as_str())
    } else {
        chars_of(domain)
    };
    if seq_eq(segments[3].as_slice(), replacement.as_slice()) {
        return None;
    }
    let ghost before = segments@.map_values(|v: Vec<char>| v@);
    segments.remove(3);
    segments.insert(3, replacement);
    assert(segments@.map_values(|v: Vec<char>| v@) =~= before.update(3, replacement@));
    assert(before =~= sp);
    let colon = chars_of(":");
    let joined = join_chars(&segments, colon.as_slice());
    if pattern {
        let mut out = caret.clone();
        append_chars(&mut out, joined.as_slice());
        Some(string_of(out.as_slice()))
    } else {
        Some(string_of(joined.as_slice()))
    }
}

// ---------------------------------------------------------------------------------------
// Verifying a transfer
// ---------------------------------------------------------------------------------------

/// The SHA-256 digest of some bytes.
pub uninterp spec fn sha256(data: Seq<u8>) -> Seq<u8>;

/// `sha2::Sha256::digest`: the 32-byte digest of the bytes, a function of them alone.
#[verifier::external_body]
pub(crate) fn sha256_digest(data: &[u8]) -> (d: Vec<u8>)
    ensures
        d@ == sha256(data@),
        d@.len() == 32,
{
    <sha2::Sha256 as Digest>::digest(data).to_vec()
}

/// One file of an upload on its way into the repository, as the checksum sees it.
pub struct Incoming {
    /// Where the upload put it, when it came from an archive.
    pub path: Option<String>,
    /// The kind of the manifest it holds, when it is a manifest.
    pub kind: Option<String>,
    /// The `spec` of that manifest (`Null` for a native file).
    pub spec: JsonValue,
    /// What the import writes for it: the manifest as it was uploaded, serialised, or the
    /// native file's bytes.
    pub written: String,
}

pub open spec fn is_bundle_index(item: Incoming) -> bool {
    match item.kind {
        Some(k) => k@ == "Bundle"@,
        None => false,
    }
}

/// The bundle index: the first manifest of kind `Bundle`.
pub open spec fn index_position(incoming: Seq<Incoming>, k: int) -> int
    decreases incoming.len() - k,
{
    if k >= incoming.len() || k < 0 {
        incoming.len() as int
    } else if is_bundle_index(incoming[k]) {
        k
    } else {
        index_position(incoming, k + 1)
    }
}

/// The `(path, sha256)` entries of the index's `spec.files`, each with both strings.
pub open spec fn file_entries(files: Seq<JsonValue>) -> Seq<(Seq<char>, Seq<char>)>
    decreases files.len(),
{
    if files.len() == 0 {
        Seq::empty()
    } else {
        let rest = file_entries(files.drop_last());
        match (get_text(files.last(), "path"@), get_text(files.last(), "sha256"@)) {
            (Some(p), Some(h)) => rest.push((p, h)),
            _ => rest,
        }
    }
}

/// The checksums the index carries, as the map they are collected into: the last entry for a
/// path wins.
pub open spec fn checksum_map(entries: Seq<(Seq<char>, Seq<char>)>) -> Map<Seq<char>, Seq<char>>
    decreases entries.len(),
{
    if entries.len() == 0 {
        Map::empty()
    } else {
        checksum_map(entries.drop_last()).insert(entries.last().0, entries.last().1)
    }
}

pub open spec fn index_entries(incoming: Seq<Incoming>) -> Seq<(Seq<char>, Seq<char>)> {
    let p = index_position(incoming, 0);
    if p < incoming.len() {
        match get(incoming[p].spec, "files"@) {
            Some(JsonValue::Array(files)) => file_entries(files@),
            _ => Seq::empty(),
        }
    } else {
        Seq::empty()
    }
}

pub open spec fn opt_view(s: Option<String>) -> Option<Seq<char>> {
    match s {
        Some(x) => Some(x@),
        None => None,
    }
}

/// What one uploaded file says about its checksum: `(path, equal)` when the index names it.
pub open spec fn checked_files(incoming: Seq<Incoming>, expected: Map<Seq<char>, Seq<char>>) -> Seq<
    (Seq<char>, bool),
>
    decreases incoming.len(),
{
    if incoming.len() == 0 {
        Seq::empty()
    } else {
        let rest = checked_files(incoming.drop_last(), expected);
        let item = incoming.last();
        match opt_view(item.path) {
            Some(path) => if expected.contains_key(path) && !is_bundle_index(item) {
                rest.push((path, hex_bytes(sha256(encode_utf8(item.written@))) == expected[path]))
            } else {
                rest
            },
            None => rest,
        }
    }
}

pub open spec fn listed(v: Seq<(Seq<char>, bool)>, path: Seq<char>) -> bool {
    exists|i: int| 0 <= i < v.len() && (#[trigger] v[i]).0 == path
}

/// The paths the index lists and no file arrived under, in key order, each unequal.
pub open spec fn lost_files(keys: Seq<Seq<char>>, found: Seq<(Seq<char>, bool)>) -> Seq<
    (Seq<char>, bool),
>
    decreases keys.len(),
{
    if keys.len() == 0 {
        Seq::empty()
    } else {
        let rest = lost_files(keys.drop_last(), found);
        if listed(found, keys.last()) {
            rest
        } else {
            rest.push((keys.last(), false))
        }
    }
}

/// Where `e` goes among entries sorted by path: after every entry whose path is not above.
pub open spec fn path_slot(s: Seq<(Seq<char>, bool)>, e: (Seq<char>, bool), k: int) -> int
    decreases s.len() - k,
{
    if k >= s.len() || k < 0 {
        s.len() as int
    } else if lex_lt(e.0, s[k].0) {
        k
    } else {
        path_slot(s, e, k + 1)
    }
}

/// A stable sort by path.
pub open spec fn by_path(s: Seq<(Seq<char>, bool)>) -> Seq<(Seq<char>, bool)>
    decreases s.len(),
{
    if s.len() == 0 {
        Seq::empty()
    } else {
        let sorted = by_path(s.drop_last());
        sorted.insert(path_slot(sorted, s.last(), 0), s.last())
    }
}

/// Sorted strictly: the order the keys of a map are walked in.
pub open spec fn keys_in_order(keys: Seq<Seq<char>>) -> bool {
    forall|i: int, j: int| 0 <= i < j < keys.len() ==> lex_lt(#[trigger] keys[i], #[trigger] keys[j])
}

/// What `verify` reports, given the index's keys in order.
pub open spec fn verification(incoming: Seq<Incoming>, keys: Seq<Seq<char>>) -> Seq<(Seq<char>, bool)> {
    let expected = checksum_map(index_entries(incoming));
    if keys.len() == 0 {
        Seq::empty()
    } else {
        let found = checked_files(incoming, expected);
        by_path(found + lost_files(keys, found))
    }
}

pub open spec fn verified_views(v: Seq<Verified>) -> Seq<(Seq<char>, bool)> {
    v.map_values(|x: Verified| (x.path@, x.equal))
}

/// The checksum map held as its keys in order beside their values.
pub open spec fn holds(keys: Seq<String>, values: Seq<String>, m: Map<Seq<char>, Seq<char>>) -> bool {
    &&& keys.len() == values.len()
    &&& keys_in_order(views(keys))
    &&& forall|k: Seq<char>| #[trigger] m.contains_key(k) <==> views(keys).contains(k)
    &&& forall|i: int| 0 <= i < keys.len() ==> m[#[trigger] keys[i]@] == values[i]@
}

fn key_index(keys: &Vec<String>, key: &String) -> (r: Option<usize>)
    ensures
        match r {
            Some(i) => i < keys@.len() && keys@[i as int]@ == key@,
            None => !views(keys@).contains(key@),
        },
{
    let mut i: usize = 0;
    while i < keys.len()
        invariant
            i <= keys@.len(),
            forall|k: int| 0 <= k < i ==> keys@[k]@ != key@,
        decreases keys.len() - i,
    {
        if keys[i] == *key {
            return Some(i);
        }
        i = i + 1;
    }
    assert(!views(keys@).contains(key@)) by {
        if views(keys@).contains(key@) {
            let k = choose|k: int| 0 <= k < views(keys@).len() && views(keys@)[k] == key@;
            assert(keys@[k]@ == key@);
        }
    }
    None
}

/// `BTreeMap::insert` of one checksum.
fn put_checksum(
    keys: &mut Vec<String>,
    values: &mut Vec<String>,
    path: String,
    sum: String,
    Ghost(m): Ghost<Map<Seq<char>, Seq<char>>>,
)
    requires
        holds(old(keys)@, old(values)@, m),
    ensures
        holds(final(keys)@, final(values)@, m.insert(path@, sum@)),
{
    let ghost s = views(keys@);
    let ghost m2 = m.insert(path@, sum@);
    let p = crate::federation::first_not_below(keys, &path);
    assert forall|k: int| p < k < s.len() implies lex_lt(path@, #[trigger] s[k]) by {
        crate::text::lemma_lex_total(s[p as int], path@);
        assert(lex_lt(s[p as int], s[k]));
        if s[p as int] != path@ {
            crate::text::lemma_lex_transitive(path@, s[p as int], s[k]);
        }
    }
    if p < keys.len() && keys[p] == path {
        let ghost vs = values@;
        values.remove(p);
        values.insert(p, sum);
        assert forall|i: int| 0 <= i < keys@.len() implies m2[#[trigger] keys@[i]@] == values@[i]@ by {
            if i != p {
                assert(values@[i] == vs[i]);
                if keys@[i]@ == path@ {
                    crate::text::lemma_lex_irreflexive(path@);
                    if i < p {
                        assert(lex_lt(s[i], s[p as int]));
                    } else {
                        assert(lex_lt(s[p as int], s[i]));
                    }
                }
            }
        }
        return;
    }
    proof {
        if p < s.len() {
            crate::text::lemma_lex_total(s[p as int], path@);
        }
    }
    let ghost ks = keys@;
    let ghost vs = values@;
    keys.insert(p, path);
    values.insert(p, sum);
    let ghost r = views(keys@);
    assert(r =~= s.insert(p as int, path@));
    assert forall|i: int, j: int| 0 <= i < j < r.len() implies lex_lt(#[trigger] r[i], #[trigger] r[j]) by {
        if j < p {
        } else if i < p && j == p {
        } else if i < p && j > p {
            assert(r[j] == s[j - 1]);
        } else if i == p {
            assert(r[j] == s[j - 1]);
        } else {
            assert(r[i] == s[i - 1]);
            assert(r[j] == s[j - 1]);
        }
    }
    assert forall|k: Seq<char>| #[trigger] m2.contains_key(k) <==> r.contains(k) by {
        if r.contains(k) {
            let i = choose|i: int| 0 <= i < r.len() && r[i] == k;
            if i < p {
                assert(s[i] == k);
            } else if i > p {
                assert(s[i - 1] == k);
            }
        }
        if m.contains_key(k) {
            assert(s.contains(k));
            let i = choose|i: int| 0 <= i < s.len() && s[i] == k;
            if i < p {
                assert(r[i] == k);
            } else {
                assert(r[i + 1] == k);
            }
        }
        if k == path@ {
            assert(r[p as int] == k);
        }
    }
    assert forall|i: int| 0 <= i < keys@.len() implies m2[#[trigger] keys@[i]@] == values@[i]@ by {
        crate::text::lemma_lex_irreflexive(path@);
        if i < p {
            assert(keys@[i] == ks[i]);
            assert(values@[i] == vs[i]);
            assert(s[i] == ks[i]@);
            assert(lex_lt(s[i], path@));
        } else if i > p {
            assert(keys@[i] == ks[i - 1]);
            assert(values@[i] == vs[i - 1]);
            assert(s[i - 1] == ks[i - 1]@);
            if i - 1 > p {
                assert(lex_lt(path@, s[i - 1]));
            } else {
                assert(s[p as int] != path@);
            }
        }
    }
}

/// Whether the entries so far already name this path.
fn listed_in(found: &Vec<Verified>, path: &String) -> (b: bool)
    ensures
        b == listed(verified_views(found@), path@),
{
    let ghost v = verified_views(found@);
    let mut i: usize = 0;
    while i < found.len()
        invariant
            i <= found@.len(),
            v == verified_views(found@),
            forall|k: int| 0 <= k < i ==> v[k].0 != path@,
        decreases found.len() - i,
    {
        if found[i].path == *path {
            assert(v[i as int].0 == path@);
            return true;
        }
        i = i + 1;
    }
    false
}

/// Where an entry goes among entries sorted by path.
fn slot_by_path(out: &Vec<Verified>, e: &Verified) -> (p: usize)
    ensures
        p == path_slot(verified_views(out@), (e.path@, e.equal), 0),
{
    let ghost s = verified_views(out@);
    let mut p: usize = 0;
    while p < out.len()
        invariant
            p <= out@.len(),
            s == verified_views(out@),
            path_slot(s, (e.path@, e.equal), 0) == path_slot(s, (e.path@, e.equal), p as int),
        decreases out.len() - p,
    {
        if string_less(&e.path, &out[p].path) {
            return p;
        }
        p = p + 1;
    }
    p
}

/// The checksums a list of `{path, sha256}` entries carries, the last entry for a path winning.
fn collect_checksums(files: &Vec<JsonValue>) -> (r: (Vec<String>, Vec<String>))
    ensures
        holds(r.0@, r.1@, checksum_map(file_entries(files@))),
{
    let mut keys: Vec<String> = Vec::new();
    let mut values: Vec<String> = Vec::new();
    let ghost mut m: Map<Seq<char>, Seq<char>> = Map::empty();
    assert(views(keys@) =~= Seq::<Seq<char>>::empty());
    assert(file_entries(files@.subrange(0, 0)) =~= Seq::<(Seq<char>, Seq<char>)>::empty());
    let mut f: usize = 0;
    while f < files.len()
        invariant
            f <= files@.len(),
            m == checksum_map(file_entries(files@.subrange(0, f as int))),
            holds(keys@, values@, m),
        decreases files.len() - f,
    {
        let ghost before = file_entries(files@.subrange(0, f as int));
        assert(files@.subrange(0, f + 1).drop_last() =~= files@.subrange(0, f as int));
        assert(files@.subrange(0, f + 1).last() == files@[f as int]);
        let path = files[f].text_at("path");
        let sum = files[f].text_at("sha256");
        match (path, sum) {
            (Some(p), Some(h)) => {
                assert(file_entries(files@.subrange(0, f + 1)) == before.push((p@, h@)));
                assert(before.push((p@, h@)).drop_last() =~= before);
                put_checksum(&mut keys, &mut values, p.clone(), h.clone(), Ghost(m));
                proof {
                    m = m.insert(p@, h@);
                }
            },
            _ => {
                assert(file_entries(files@.subrange(0, f + 1)) == before);
            },
        }
        f = f + 1;
    }
    assert(files@.subrange(0, files@.len() as int) =~= files@);
    (keys, values)
}

/// The checksums the bundle index carries.
fn index_checksums(incoming: &Vec<Incoming>) -> (r: (Vec<String>, Vec<String>))
    ensures
        holds(r.0@, r.1@, checksum_map(index_entries(incoming@))),
{
    let idx = index_of_bundle(incoming);
    if idx < incoming.len() {
        match incoming[idx].spec.get_member("files") {
            Some(JsonValue::Array(files)) => {
                return collect_checksums(files);
            },
            _ => {},
        }
    }
    let keys: Vec<String> = Vec::new();
    let values: Vec<String> = Vec::new();
    assert(views(keys@) =~= Seq::<Seq<char>>::empty());
    assert(checksum_map(index_entries(incoming@)) =~= Map::<Seq<char>, Seq<char>>::empty());
    (keys, values)
}

/// Every uploaded file the index names, with whether its digest matched.
fn checked(incoming: &Vec<Incoming>, keys: &Vec<String>, values: &Vec<String>, Ghost(m): Ghost<Map<Seq<char>, Seq<char>>>) -> (found: Vec<Verified>)
    requires
        holds(keys@, values@, m),
    ensures
        verified_views(found@) == checked_files(incoming@, m),
{
    let ghost inc = incoming@;
    let mut found: Vec<Verified> = Vec::new();
    let mut i: usize = 0;
    assert(verified_views(found@) =~= checked_files(inc.subrange(0, 0), m));
    while i < incoming.len()
        invariant
            i <= inc.len(),
            inc == incoming@,
            holds(keys@, values@, m),
            verified_views(found@) == checked_files(inc.subrange(0, i as int), m),
        decreases incoming.len() - i,
    {
        assert(inc.subrange(0, i + 1).drop_last() =~= inc.subrange(0, i as int));
        let item = &incoming[i];
        assert(inc.subrange(0, i + 1).last() == inc[i as int]);
        let ghost before = verified_views(found@);
        match &item.path {
            Some(path) => {
                match key_index(keys, path) {
                    Some(k) => {
                        assert(views(keys@)[k as int] == path@);
                        assert(m.contains_key(path@));
                        assert(m[keys@[k as int]@] == values@[k as int]@);
                        if !is_index(item) {
                            let text = item.written.as_str();
                            let bytes = text.as_bytes();
                            assert(bytes@ == encode_utf8(item.written@));
                            let digest = sha256_digest(bytes);
                            let found_hex = hex_of(digest.as_slice());
                            let wanted = chars_of(values[k].as_str());
                            let equal = seq_eq(found_hex.as_slice(), wanted.as_slice());
                            found.push(Verified { path: path.clone(), equal });
                            assert(verified_views(found@) =~= before.push((path@, equal)));
                        }
                    },
                    None => {
                        assert(!m.contains_key(path@));
                    },
                }
            },
            None => {},
        }
        i = i + 1;
    }
    assert(inc.subrange(0, inc.len() as int) =~= inc);
    found
}

/// The paths the index lists and nothing arrived under, each unequal.
fn lost(found: &Vec<Verified>, keys: &Vec<String>) -> (out: Vec<Verified>)
    ensures
        verified_views(out@) == lost_files(views(keys@), verified_views(found@)),
{
    let ghost ks = views(keys@);
    let ghost fv = verified_views(found@);
    let mut out: Vec<Verified> = Vec::new();
    let mut k: usize = 0;
    assert(verified_views(out@) =~= lost_files(ks.subrange(0, 0), fv));
    while k < keys.len()
        invariant
            k <= keys@.len(),
            ks == views(keys@),
            fv == verified_views(found@),
            verified_views(out@) == lost_files(ks.subrange(0, k as int), fv),
        decreases keys.len() - k,
    {
        assert(ks.subrange(0, k + 1).drop_last() =~= ks.subrange(0, k as int));
        let ghost before = verified_views(out@);
        if !listed_in(found, &keys[k]) {
            out.push(Verified { path: keys[k].clone(), equal: false });
            assert(verified_views(out@) =~= before.push((ks[k as int], false)));
        }
        k = k + 1;
    }
    assert(ks.subrange(0, ks.len() as int) =~= ks);
    out
}

/// The entries sorted by path, ties in the order they came.
fn sorted_by_path(entries: Vec<Verified>) -> (out: Vec<Verified>)
    ensures
        verified_views(out@) == by_path(verified_views(entries@)),
{
    let ghost all = verified_views(entries@);
    let n = entries.len();
    let mut rest = entries;
    let mut out: Vec<Verified> = Vec::new();
    let mut j: usize = 0;
    assert(verified_views(out@) =~= by_path(all.subrange(0, 0)));
    assert(all.subrange(0, n as int) =~= all);
    while j < n
        invariant
            j <= n == all.len(),
            rest@.len() == n - j,
            verified_views(rest@) == all.subrange(j as int, n as int),
            verified_views(out@) == by_path(all.subrange(0, j as int)),
        decreases n - j,
    {
        let ghost before = verified_views(out@);
        let ghost old_rest = rest@;
        assert(verified_views(old_rest)[0] == all[j as int]);
        let e = rest.remove(0);
        assert forall|q: int| 0 <= q < rest@.len() implies #[trigger] verified_views(rest@)[q] == all[j + 1 + q] by {
            assert(rest@[q] == old_rest[q + 1]);
            assert(verified_views(old_rest)[q + 1] == all.subrange(j as int, n as int)[q + 1]);
        }
        assert(verified_views(rest@) =~= all.subrange(j + 1, n as int));
        let p = slot_by_path(&out, &e);
        proof {
            lemma_path_slot(before, (e.path@, e.equal), 0);
        }
        out.insert(p, e);
        assert(all.subrange(0, j + 1).drop_last() =~= all.subrange(0, j as int));
        assert(verified_views(out@) =~= before.insert(p as int, all[j as int]));
        j = j + 1;
    }
    out
}

/// What the bundle index says each of its files hashes to, against what arrived.
///
/// A file the index lists and the upload does not hold was lost on the way: it is reported
/// unequal. A bundle whose index carries no checksums answers nothing rather than reporting
/// every file equal. The answer is sorted by path.
pub fn verify(incoming: &Vec<Incoming>) -> (out: Vec<Verified>)
    ensures
        exists|keys: Seq<Seq<char>>|
            keys_in_order(keys) && (forall|k: Seq<char>|
                #[trigger] keys.contains(k) <==> checksum_map(index_entries(incoming@)).contains_key(k))
                && verified_views(out@) == verification(incoming@, keys),
{
    let ghost m = checksum_map(index_entries(incoming@));
    let (keys, values) = index_checksums(incoming);
    let ghost ks = views(keys@);
    if keys.len() == 0 {
        let out: Vec<Verified> = Vec::new();
        assert(verified_views(out@) =~= Seq::<(Seq<char>, bool)>::empty());
        assert(ks =~= Seq::<Seq<char>>::empty());
        assert(verified_views(out@) == verification(incoming@, ks));
        return out;
    }
    let mut found = checked(incoming, &keys, &values, Ghost(m));
    let ghost fv = verified_views(found@);
    let mut missing = lost(&found, &keys);
    let ghost all = fv + verified_views(missing@);
    found.append(&mut missing);
    assert(verified_views(found@) =~= all);
    let out = sorted_by_path(found);
    assert(verified_views(out@) == verification(incoming@, ks));
    out
}

proof fn lemma_path_slot(s: Seq<(Seq<char>, bool)>, e: (Seq<char>, bool), k: int)
    requires
        0 <= k <= s.len(),
    ensures
        k <= path_slot(s, e, k) <= s.len(),
    decreases s.len() - k,
{
    if k < s.len() && !lex_lt(e.0, s[k].0) {
        lemma_path_slot(s, e, k + 1);
    }
}

/// The bundle index's position, the length when there is none.
fn index_of_bundle(incoming: &Vec<Incoming>) -> (idx: usize)
    ensures
        idx == index_position(incoming@, 0),
        idx <= incoming@.len(),
{
    let mut idx: usize = 0;
    while idx < incoming.len()
        invariant
            idx <= incoming@.len(),
            index_position(incoming@, 0) == index_position(incoming@, idx as int),
        decreases incoming.len() - idx,
    {
        if is_index(&incoming[idx]) {
            return idx;
        }
        idx = idx + 1;
    }
    idx
}

fn is_index(item: &Incoming) -> (b: bool)
    ensures
        b == is_bundle_index(*item),
{
    match &item.kind {
        Some(k) => str_eq(k.as_str(), "Bundle"),
        None => false,
    }
}

/// The query of an import.
pub struct ImportQuery {
    pub dry_run: Option<String>,
}

impl ImportQuery {
    /// An import is a dry run when the query says `dryRun=All`, exactly.
    pub fn is_dry_run(&self) -> (b: bool)
        ensures
            b == (self.dry_run matches Some(d) && d@ == "All"@),
    {
        match &self.dry_run {
            Some(d) => str_eq(d.as_str(), "All"),
            None => false,
        }
    }
}


// ---------------------------------------------------------------------------------------
// A name no resource holds
// ---------------------------------------------------------------------------------------

/// The `k`-th name a rename tries: the stem itself, then `stem-2`, `stem-3`, and so on.
pub open spec fn attempt_name(stem: Seq<char>, k: nat) -> Seq<char> {
    if k <= 1 {
        stem
    } else {
        stem + "-"@ + decimal(k)
    }
}

proof fn lemma_decimal_nonempty(n: nat)
    ensures
        decimal(n).len() >= 1,
        n >= 10 ==> decimal(n).len() >= 2,
    decreases n,
{
    if n >= 10 {
        lemma_decimal_nonempty(n / 10);
    }
}

proof fn lemma_digit_char_injective(a: nat, b: nat)
    requires
        a < 10,
        b < 10,
        crate::text::digit_char(a) == crate::text::digit_char(b),
    ensures
        a == b,
{
    assert(crate::text::digit_char(a) as int == 48 + a);
    assert(crate::text::digit_char(b) as int == 48 + b);
}

/// Two numbers are written alike in decimal only when they are the same number.
pub proof fn lemma_decimal_injective(a: nat, b: nat)
    requires
        decimal(a) == decimal(b),
    ensures
        a == b,
    decreases a,
{
    lemma_decimal_nonempty(a);
    lemma_decimal_nonempty(b);
    if a < 10 && b < 10 {
        assert(decimal(a)[0] == crate::text::digit_char(a));
        assert(decimal(b)[0] == crate::text::digit_char(b));
        lemma_digit_char_injective(a, b);
    } else if a >= 10 && b >= 10 {
        let da = decimal(a);
        let db = decimal(b);
        assert(da.last() == crate::text::digit_char(a % 10));
        assert(db.last() == crate::text::digit_char(b % 10));
        lemma_digit_char_injective(a % 10, b % 10);
        assert(da.drop_last() =~= decimal(a / 10));
        assert(db.drop_last() =~= decimal(b / 10));
        lemma_decimal_injective(a / 10, b / 10);
    }
}

/// The names a rename tries are all different.
pub proof fn lemma_attempts_differ(stem: Seq<char>, j: nat, k: nat)
    requires
        1 <= j < k,
    ensures
        attempt_name(stem, j) != attempt_name(stem, k),
{
    reveal_strlit("-");
    lemma_decimal_nonempty(k);
    lemma_decimal_nonempty(j);
    if j >= 2 {
        let a = attempt_name(stem, j);
        let b = attempt_name(stem, k);
        if a == b {
            let n = stem.len() + 1;
            assert(a.subrange(n as int, a.len() as int) =~= decimal(j));
            assert(b.subrange(n as int, b.len() as int) =~= decimal(k));
            lemma_decimal_injective(j, k);
        }
    } else {
        assert(attempt_name(stem, k).len() > stem.len());
    }
}

/// The name a rename lands on: the first of its attempts that no resource of the kind holds,
/// among the names `taken`.
pub fn free_name(stem: &str, taken: &Vec<String>) -> (r: String)
    ensures
        exists|k: nat|
            k >= 1 && r@ == attempt_name(stem@, k) && !views(taken@).contains(r@) && forall|j: nat|
                1 <= j < k ==> views(taken@).contains(#[trigger] attempt_name(stem@, j)),
        r@ == first_free(stem@, views(taken@)),
{
    let r = free_name_search(stem, taken);
    proof {
        lemma_first_free(stem@, views(taken@), r@);
    }
    r
}

/// Whether the `k`-th attempt is the first that nobody holds.
pub open spec fn first_free_at(stem: Seq<char>, taken: Seq<Seq<char>>, k: nat) -> bool {
    k >= 1 && !taken.contains(attempt_name(stem, k)) && forall|j: nat|
        1 <= j < k ==> taken.contains(#[trigger] attempt_name(stem, j))
}

/// The first attempt that nobody holds.
pub open spec fn first_free(stem: Seq<char>, taken: Seq<Seq<char>>) -> Seq<char> {
    attempt_name(stem, choose|k: nat| first_free_at(stem, taken, k))
}

proof fn lemma_first_free(stem: Seq<char>, taken: Seq<Seq<char>>, r: Seq<char>)
    requires
        exists|k: nat| first_free_at(stem, taken, k) && r == attempt_name(stem, k),
    ensures
        r == first_free(stem, taken),
{
    let k = choose|k: nat| first_free_at(stem, taken, k) && r == attempt_name(stem, k);
    let c = choose|k: nat| first_free_at(stem, taken, k);
    if c < k {
        assert(taken.contains(attempt_name(stem, c)));
    } else if k < c {
        assert(taken.contains(attempt_name(stem, k)));
    }
}

fn free_name_search(stem: &str, taken: &Vec<String>) -> (r: String)
    ensures
        exists|k: nat|
            k >= 1 && r@ == attempt_name(stem@, k) && !views(taken@).contains(r@) && forall|j: nat|
                1 <= j < k ==> views(taken@).contains(#[trigger] attempt_name(stem@, j)),
{
    let ghost tv = views(taken@);
    let mut attempt: u128 = 1;
    let mut candidate = string_of(chars_of(stem).as_slice());
    let ghost mut seen: Set<Seq<char>> = Set::empty();
    proof {
        tv.lemma_cardinality_of_set();
    }
    loop
        invariant
            tv == views(taken@),
            1 <= attempt <= tv.len() + 1,
            candidate@ == attempt_name(stem@, attempt as nat),
            forall|j: nat| 1 <= j < attempt ==> tv.contains(#[trigger] attempt_name(stem@, j)),
            seen.finite(),
            seen.len() == attempt - 1,
            seen.subset_of(tv.to_set()),
            forall|s: Seq<char>| #[trigger] seen.contains(s) ==> exists|j: nat| 1 <= j < attempt && s == attempt_name(stem@, j),
            tv.to_set().len() <= tv.len(),
        decreases tv.len() + 1 - attempt,
    {
        let mut held = false;
        let mut i: usize = 0;
        while i < taken.len()
            invariant
                i <= taken@.len(),
                tv == views(taken@),
                held == exists|q: int| 0 <= q < i && tv[q] == candidate@,
            decreases taken.len() - i,
        {
            assert(tv[i as int] == taken@[i as int]@);
            if str_eq(taken[i].as_str(), candidate.as_str()) {
                held = true;
            }
            i = i + 1;
        }
        if !held {
            assert(!tv.contains(candidate@)) by {
                if tv.contains(candidate@) {
                    let q = choose|q: int| 0 <= q < tv.len() && tv[q] == candidate@;
                    assert(exists|q2: int| 0 <= q2 < taken@.len() && tv[q2] == candidate@);
                }
            }
            return candidate;
        }
        proof {
            let c = candidate@;
            assert(tv.contains(c));
            assert(!seen.contains(c)) by {
                if seen.contains(c) {
                    let j = choose|j: nat| 1 <= j < attempt && c == attempt_name(stem@, j);
                    lemma_attempts_differ(stem@, j, attempt as nat);
                }
            }
            let next = seen.insert(c);
            assert(next.subset_of(tv.to_set()));
            vstd::set_lib::lemma_len_subset(next, tv.to_set());
            assert forall|s: Seq<char>| #[trigger] next.contains(s) implies exists|j: nat| 1 <= j < attempt + 1 && s == attempt_name(stem@, j) by {
                if s == c {
                    assert(1 <= attempt as nat && s == attempt_name(stem@, attempt as nat));
                } else {
                    let j = choose|j: nat| 1 <= j < attempt && s == attempt_name(stem@, j);
                    assert(1 <= j < attempt + 1 && s == attempt_name(stem@, j));
                }
            }
            seen = next;
        }
        attempt = attempt + 1;
        let mut m = chars_of(stem);
        append_str(&mut m, "-");
        append_chars(&mut m, crate::text::wide_decimal_of(attempt).as_slice());
        candidate = string_of(m.as_slice());
    }
}


// ---------------------------------------------------------------------------------------
// Where a bundle came from, and what a conflict is answered
// ---------------------------------------------------------------------------------------

/// The provenance a bundle index gives: `{project}@{revision}`. The project is the index's
/// name (an older index names it in `spec.project`), the revision its `sourceRevision` (an
/// older one's `spec.revision`), `unknown` when it gives none as text.
pub open spec fn provenance_of(bundle: Envelope) -> Seq<char> {
    let from = match get_text(bundle.spec, "project"@) {
        Some(p) => p,
        None => bundle.metadata.name@,
    };
    let revision = match get(bundle.spec, "sourceRevision"@) {
        Some(v) => crate::json::text_of_opt(Some(v)),
        None => get_text(bundle.spec, "revision"@),
    };
    from + "@"@ + match revision {
        Some(r) => r,
        None => "unknown"@,
    }
}

pub fn provenance(bundle: &Envelope) -> (s: String)
    ensures
        s@ == provenance_of(*bundle),
{
    let mut m = match bundle.spec.text_at("project") {
        Some(p) => chars_of(p.as_str()),
        None => chars_of(bundle.metadata.name.as_str()),
    };
    append_str(&mut m, "@");
    let revision = match bundle.spec.get_member("sourceRevision") {
        Some(v) => v.as_text(),
        None => bundle.spec.text_at("revision"),
    };
    match revision {
        Some(r) => append_str(&mut m, r.as_str()),
        None => append_str(&mut m, "unknown"),
    }
    string_of(m.as_slice())
}

/// A resource the project already has, under the `fail` policy.
pub fn already_exists(kind: &str, name: &str, project: &str) -> (e: ApiError)
    ensures
        e matches ApiError::Conflict(m) && m@ == kind@ + " '"@ + name@ + "' already exists in project '"@
            + project@ + "'; choose skip, replace or rename (MF-23)"@,
{
    let mut m = chars_of(kind);
    append_str(&mut m, " '");
    append_str(&mut m, name);
    append_str(&mut m, "' already exists in project '");
    append_str(&mut m, project);
    append_str(&mut m, "'; choose skip, replace or rename (MF-23)");
    ApiError::Conflict(string_of(m.as_slice()))
}

/// A rename whose name this platform cannot store.
pub fn unstorable_rename(old: &str, new: &str) -> (e: ApiError)
    ensures
        e matches ApiError::BadRequest(m) && m@ == "renaming '"@ + old@ + "' would produce '"@ + new@
            + "', which is not a name this platform can store; rename it in the source project first (MF-23)"@,
{
    let mut m = chars_of("renaming '");
    append_str(&mut m, old);
    append_str(&mut m, "' would produce '");
    append_str(&mut m, new);
    append_str(&mut m, "', which is not a name this platform can store; rename it in the source project first (MF-23)");
    ApiError::BadRequest(string_of(m.as_slice()))
}


// ---------------------------------------------------------------------------------------
// The conflict policy applied
// ---------------------------------------------------------------------------------------

/// What an import does with one manifest of the bundle.
#[derive(Debug)]
pub enum Outcome {
    Created,
    Replaced,
    Skipped,
    /// Imported under this new name.
    Renamed(String),
}

/// One manifest on its way in: the namespace it was exported from, the namespace it is stored
/// in here, and the manifest.
pub struct Arriving {
    pub origin: String,
    pub stored: String,
    pub envelope: Envelope,
}

/// Whether the destination already holds a resource of this kind and name in this namespace,
/// among `(namespace, kind, name)` triples.
pub open spec fn resource_held(existing: Seq<(String, String, String)>, ns: Seq<char>, kind: Seq<char>, name: Seq<char>) -> bool {
    exists|i: int|
        0 <= i < existing.len() && (#[trigger] existing[i]).0@ == ns && existing[i].1@ == kind && existing[i].2@
            == name
}

/// The names a kind already has in a namespace.
pub open spec fn names_held(existing: Seq<(String, String, String)>, ns: Seq<char>, kind: Seq<char>) -> Seq<Seq<char>>
    decreases existing.len(),
{
    if existing.len() == 0 {
        Seq::empty()
    } else {
        let before = names_held(existing.drop_last(), ns, kind);
        let e = existing.last();
        if e.0@ == ns && e.1@ == kind {
            before.push(e.2@)
        } else {
            before
        }
    }
}

pub open spec fn arriving_holds(a: Arriving, existing: Seq<(String, String, String)>) -> bool {
    resource_held(existing, a.stored@, a.envelope.kind@, a.envelope.metadata.name@)
}

/// The name a renamed manifest lands on: its name suffixed with where it came from, then
/// numbered from `-2` upward until nobody of its kind holds it.
pub open spec fn rename_of(a: Arriving, existing: Seq<(String, String, String)>) -> Seq<char> {
    first_free(
        renamed_as(a.envelope.metadata.name@, a.origin@),
        names_held(existing, a.stored@, a.envelope.kind@),
    )
}

/// Whether a manifest stops the whole import: it exists under `fail`, or under `rename` its
/// new name is not one this platform can store.
pub open spec fn stops(a: Arriving, existing: Seq<(String, String, String)>, policy: ConflictPolicy) -> bool {
    arriving_holds(a, existing) && (policy == ConflictPolicy::Fail || (policy == ConflictPolicy::Rename
        && !crate::projects::dns1123(rename_of(a, existing))))
}

/// What the policy does with a manifest that does not stop the import.
pub open spec fn outcome_of(a: Arriving, existing: Seq<(String, String, String)>, policy: ConflictPolicy, o: Outcome) -> bool {
    if !arriving_holds(a, existing) {
        o is Created
    } else {
        match policy {
            ConflictPolicy::Skip => o is Skipped,
            ConflictPolicy::Replace => o is Replaced,
            ConflictPolicy::Rename => o matches Outcome::Renamed(n) && n@ == rename_of(a, existing),
            ConflictPolicy::Fail => false,
        }
    }
}

/// The refusal a stopping manifest is answered with.
pub open spec fn stop_message(a: Arriving, existing: Seq<(String, String, String)>, policy: ConflictPolicy, project: Seq<char>, e: ApiError) -> bool {
    if policy == ConflictPolicy::Fail {
        e matches ApiError::Conflict(m) && m@ == a.envelope.kind@ + " '"@ + a.envelope.metadata.name@
            + "' already exists in project '"@ + project + "'; choose skip, replace or rename (MF-23)"@
    } else {
        e matches ApiError::BadRequest(m) && m@ == "renaming '"@ + a.envelope.metadata.name@ + "' would produce '"@
            + rename_of(a, existing)
            + "', which is not a name this platform can store; rename it in the source project first (MF-23)"@
    }
}

fn held_in(existing: &Vec<(String, String, String)>, ns: &str, kind: &str, name: &str) -> (b: bool)
    ensures
        b == resource_held(existing@, ns@, kind@, name@),
{
    let mut i: usize = 0;
    while i < existing.len()
        invariant
            i <= existing@.len(),
            forall|j: int|
                0 <= j < i ==> !((#[trigger] existing@[j]).0@ == ns@ && existing@[j].1@ == kind@ && existing@[j].2@
                    == name@),
        decreases existing.len() - i,
    {
        if str_eq(existing[i].0.as_str(), ns) && str_eq(existing[i].1.as_str(), kind) && str_eq(
            existing[i].2.as_str(),
            name,
        ) {
            return true;
        }
        i = i + 1;
    }
    false
}

fn held_names(existing: &Vec<(String, String, String)>, ns: &str, kind: &str) -> (out: Vec<String>)
    ensures
        views(out@) == names_held(existing@, ns@, kind@),
{
    let mut out: Vec<String> = Vec::new();
    let mut i: usize = 0;
    assert(existing@.take(0) =~= Seq::<(String, String, String)>::empty());
    assert(views(out@) =~= Seq::<Seq<char>>::empty());
    while i < existing.len()
        invariant
            i <= existing@.len(),
            views(out@) == names_held(existing@.take(i as int), ns@, kind@),
        decreases existing.len() - i,
    {
        assert(existing@.take(i + 1).drop_last() =~= existing@.take(i as int));
        assert(existing@.take(i + 1).last() == existing@[i as int]);
        if str_eq(existing[i].0.as_str(), ns) && str_eq(existing[i].1.as_str(), kind) {
            let ghost before = views(out@);
            out.push(existing[i].2.clone());
            assert(views(out@) =~= before.push(existing@[i as int].2@));
        }
        i = i + 1;
    }
    assert(existing@.take(existing@.len() as int) =~= existing@);
    out
}

/// The conflict policy applied to every manifest of a bundle, in order (MF-23): a manifest
/// the destination lacks is created; one it holds is skipped, replaced, or renamed to the
/// first free name, as the policy says. Under `fail` the first manifest the destination holds
/// stops the import, and under `rename` so does the first whose new name cannot be stored.
pub fn plan_import(
    arriving: &Vec<Arriving>,
    existing: &Vec<(String, String, String)>,
    project: &str,
    policy: ConflictPolicy,
) -> (r: Result<Vec<Outcome>, ApiError>)
    ensures
        match r {
            Ok(out) => out@.len() == arriving@.len() && forall|i: int|
                0 <= i < arriving@.len() ==> !stops(#[trigger] arriving@[i], existing@, policy) && outcome_of(
                    arriving@[i],
                    existing@,
                    policy,
                    out@[i],
                ),
            Err(e) => exists|i: int|
                0 <= i < arriving@.len() && stops(#[trigger] arriving@[i], existing@, policy) && stop_message(
                    arriving@[i],
                    existing@,
                    policy,
                    project@,
                    e,
                ) && forall|j: int| 0 <= j < i ==> !stops(#[trigger] arriving@[j], existing@, policy),
        },
{
    let mut out: Vec<Outcome> = Vec::new();
    let mut i: usize = 0;
    while i < arriving.len()
        invariant
            i <= arriving@.len(),
            out@.len() == i,
            forall|k: int|
                0 <= k < i ==> !stops(#[trigger] arriving@[k], existing@, policy) && outcome_of(
                    arriving@[k],
                    existing@,
                    policy,
                    out@[k],
                ),
        decreases arriving.len() - i,
    {
        let a = &arriving[i];
        let name = a.envelope.metadata.name.as_str();
        let kind = a.envelope.kind.as_str();
        if !held_in(existing, a.stored.as_str(), kind, name) {
            out.push(Outcome::Created);
        } else {
            match policy {
                ConflictPolicy::Fail => {
                    return Err(already_exists(kind, name, project));
                },
                ConflictPolicy::Skip => out.push(Outcome::Skipped),
                ConflictPolicy::Replace => out.push(Outcome::Replaced),
                ConflictPolicy::Rename => {
                    let stem = renamed(name, a.origin.as_str());
                    let taken = held_names(existing, a.stored.as_str(), kind);
                    let new = free_name(stem.as_str(), &taken);
                    if !crate::projects::is_dns1123(new.as_str()) {
                        return Err(unstorable_rename(name, new.as_str()));
                    }
                    out.push(Outcome::Renamed(new));
                },
            }
        }
        i = i + 1;
    }
    Ok(out)
}


// ---------------------------------------------------------------------------------------
// The report of a plan
// ---------------------------------------------------------------------------------------

pub open spec fn keys_of(s: Seq<(String, String)>) -> Seq<Seq<char>> {
    s.map_values(|p: (String, String)| p.0@)
}

proof fn lemma_entry_at(s: Seq<(String, String)>, i: int)
    requires
        crate::federation::strictly_sorted(keys_of(s)),
        0 <= i < s.len(),
    ensures
        crate::resource::entry(s, s[i].0@) == Some(s[i].1@),
    decreases s.len(),
{
    if i > 0 {
        assert(keys_of(s)[0] == s[0].0@ && keys_of(s)[i] == s[i].0@);
        crate::text::lemma_lex_irreflexive(s[0].0@);
        assert(s[0].0@ != s[i].0@);
        let t = s.drop_first();
        assert(keys_of(t) =~= keys_of(s).drop_first());
        assert(t[i - 1] == s[i]);
        lemma_entry_at(t, i - 1);
    }
}

proof fn lemma_entry_none(s: Seq<(String, String)>, x: Seq<char>)
    requires
        forall|j: int| 0 <= j < s.len() ==> (#[trigger] s[j]).0@ != x,
    ensures
        crate::resource::entry(s, x) is None,
    decreases s.len(),
{
    if s.len() > 0 {
        let t = s.drop_first();
        assert forall|j: int| 0 <= j < t.len() implies (#[trigger] t[j]).0@ != x by {
            assert(t[j] == s[j + 1]);
        }
        lemma_entry_none(t, x);
    }
}

proof fn lemma_entry_of(s: Seq<(String, String)>, x: Seq<char>)
    requires
        crate::federation::strictly_sorted(keys_of(s)),
    ensures
        crate::resource::entry(s, x) == if exists|j: int| 0 <= j < s.len() && (#[trigger] s[j]).0@ == x {
            Some(s[choose|j: int| 0 <= j < s.len() && (#[trigger] s[j]).0@ == x].1@)
        } else {
            None
        },
{
    if exists|j: int| 0 <= j < s.len() && (#[trigger] s[j]).0@ == x {
        let j = choose|j: int| 0 <= j < s.len() && (#[trigger] s[j]).0@ == x;
        lemma_entry_at(s, j);
    } else {
        lemma_entry_none(s, x);
    }
}

/// Sets `k` to `v` in a map kept as pairs in key order, each key once.
pub fn put_sorted(m: &mut Vec<(String, String)>, k: &String, v: String)
    requires
        crate::federation::strictly_sorted(keys_of(old(m)@)),
    ensures
        crate::federation::strictly_sorted(keys_of(final(m)@)),
        forall|x: Seq<char>|
            #[trigger] crate::resource::entry(final(m)@, x) == if x == k@ {
                Some(v@)
            } else {
                crate::resource::entry(old(m)@, x)
            },
{
    let ghost s = m@;
    let ghost ks = keys_of(s);
    let mut p: usize = 0;
    while p < m.len() && crate::text::string_less(&m[p].0, k)
        invariant
            p <= m@.len(),
            m@ == s,
            ks == keys_of(s),
            forall|q: int| 0 <= q < p ==> lex_lt(#[trigger] ks[q], k@),
        decreases m.len() - p,
    {
        assert(ks[p as int] == m@[p as int].0@);
        p = p + 1;
    }
    // Every key from p on is not below k.
    assert forall|q: int| p <= q < ks.len() implies !lex_lt(#[trigger] ks[q], k@) by {
        assert(!lex_lt(ks[p as int], k@));
        if q > p {
            if lex_lt(ks[q], k@) {
                crate::text::lemma_lex_transitive(ks[p as int], ks[q], k@);
            }
        }
    }
    let found = p < m.len() && crate::text::str_eq(m[p].0.as_str(), k.as_str());
    if found {
        let ghost old_key = m@[p as int].0;
        let _ = m.remove(p);
        m.insert(p, (k.clone(), v));
        proof {
            let t = m@;
            assert(keys_of(t) =~= ks);
            lemma_entry_of(s, k@);
            assert forall|x: Seq<char>| #[trigger] crate::resource::entry(t, x) == if x == k@ {
                Some(v@)
            } else {
                crate::resource::entry(s, x)
            } by {
                lemma_entry_of(t, x);
                lemma_entry_of(s, x);
                if x == k@ {
                    lemma_entry_at(t, p as int);
                } else {
                    if exists|j: int| 0 <= j < s.len() && (#[trigger] s[j]).0@ == x {
                        let j = choose|j: int| 0 <= j < s.len() && (#[trigger] s[j]).0@ == x;
                        assert(j != p);
                        assert(t[j] == s[j]);
                        lemma_entry_at(t, j);
                        lemma_entry_at(s, j);
                    } else {
                        assert forall|j: int| 0 <= j < t.len() implies (#[trigger] t[j]).0@ != x by {
                            if j != p {
                                assert(t[j] == s[j]);
                            }
                        }
                        lemma_entry_none(t, x);
                    }
                }
            }
        }
    } else {
        let key = k.clone();
        m.insert(p, (key, v));
        proof {
            let t = m@;
            assert(keys_of(t) =~= ks.insert(p as int, k@));
            if p < ks.len() {
                crate::text::lemma_lex_total(ks[p as int], k@);
            }
            assert forall|i: int, j: int| 0 <= i < j < keys_of(t).len() implies lex_lt(
                #[trigger] keys_of(t)[i],
                #[trigger] keys_of(t)[j],
            ) by {
                let kt = keys_of(t);
                if j < p {
                    assert(kt[i] == ks[i] && kt[j] == ks[j]);
                } else if j == p {
                    assert(kt[i] == ks[i]);
                } else if i < p {
                    assert(kt[i] == ks[i] && kt[j] == ks[j - 1]);
                } else if i == p {
                    assert(kt[j] == ks[j - 1]);
                    if j - 1 > p {
                        crate::text::lemma_lex_transitive(k@, ks[p as int], ks[j - 1]);
                    }
                } else {
                    assert(kt[i] == ks[i - 1] && kt[j] == ks[j - 1]);
                }
            }
            assert forall|x: Seq<char>| #[trigger] crate::resource::entry(t, x) == if x == k@ {
                Some(v@)
            } else {
                crate::resource::entry(s, x)
            } by {
                lemma_entry_of(s, x);
                if x == k@ {
                    assert(t[p as int].0@ == k@);
                    lemma_entry_at(t, p as int);
                } else if exists|j: int| 0 <= j < s.len() && (#[trigger] s[j]).0@ == x {
                    let j = choose|j: int| 0 <= j < s.len() && (#[trigger] s[j]).0@ == x;
                    let jt = if j < p { j } else { j + 1 };
                    assert(t[jt] == s[j]);
                    lemma_entry_at(t, jt);
                    lemma_entry_at(s, j);
                } else {
                    assert forall|j: int| 0 <= j < t.len() implies (#[trigger] t[j]).0@ != x by {
                        if j < p {
                            assert(t[j] == s[j]);
                        } else if j > p {
                            assert(t[j] == s[j - 1]);
                        }
                    }
                    lemma_entry_none(t, x);
                }
            }
        }
    }
}


/// The names of the manifests whose outcome is of one sort, in bundle order.
pub open spec fn names_where(arriving: Seq<Arriving>, outcomes: Seq<Outcome>, n: int, f: spec_fn(Outcome) -> bool) -> Seq<Seq<char>>
    decreases n,
{
    if n <= 0 {
        Seq::empty()
    } else {
        let before = names_where(arriving, outcomes, n - 1, f);
        if f(outcomes[n - 1]) {
            before.push(arriving[n - 1].envelope.metadata.name@)
        } else {
            before
        }
    }
}

/// The name the last rename of `k` gave.
pub open spec fn last_rename(arriving: Seq<Arriving>, outcomes: Seq<Outcome>, n: int, k: Seq<char>) -> Option<Seq<char>>
    decreases n,
{
    if n <= 0 {
        None
    } else if arriving[n - 1].envelope.metadata.name@ == k && outcomes[n - 1] is Renamed {
        Some(outcomes[n - 1]->Renamed_0@)
    } else {
        last_rename(arriving, outcomes, n - 1, k)
    }
}

/// What one import does, from the outcome of each manifest: the created, replaced and skipped
/// names in bundle order, and the renames `old -> new` in key order, each old name once with
/// the last name it was given.
pub fn import_report(
    arriving: &Vec<Arriving>,
    outcomes: &Vec<Outcome>,
    native_files: usize,
    lane: Lane,
    source: Option<String>,
    verified: Vec<Verified>,
) -> (r: ImportReport)
    requires
        outcomes@.len() == arriving@.len(),
    ensures
        views(r.created@) == names_where(arriving@, outcomes@, arriving@.len() as int, |o: Outcome| o is Created),
        views(r.replaced@) == names_where(arriving@, outcomes@, arriving@.len() as int, |o: Outcome| o is Replaced),
        views(r.skipped@) == names_where(arriving@, outcomes@, arriving@.len() as int, |o: Outcome| o is Skipped),
        crate::federation::strictly_sorted(keys_of(r.renamed@)),
        forall|k: Seq<char>|
            #[trigger] crate::resource::entry(r.renamed@, k) == last_rename(arriving@, outcomes@, arriving@.len() as int, k),
        r.native_files == native_files,
        r.lane == lane,
        r.source == source,
        r.verified == verified,
{
    let mut created: Vec<String> = Vec::new();
    let mut replaced: Vec<String> = Vec::new();
    let mut skipped: Vec<String> = Vec::new();
    let mut renamed: Vec<(String, String)> = Vec::new();
    let mut i: usize = 0;
    assert(views(created@) =~= Seq::<Seq<char>>::empty());
    assert(views(replaced@) =~= Seq::<Seq<char>>::empty());
    assert(views(skipped@) =~= Seq::<Seq<char>>::empty());
    assert(keys_of(renamed@) =~= Seq::<Seq<char>>::empty());
    while i < arriving.len()
        invariant
            i <= arriving@.len(),
            outcomes@.len() == arriving@.len(),
            views(created@) == names_where(arriving@, outcomes@, i as int, |o: Outcome| o is Created),
            views(replaced@) == names_where(arriving@, outcomes@, i as int, |o: Outcome| o is Replaced),
            views(skipped@) == names_where(arriving@, outcomes@, i as int, |o: Outcome| o is Skipped),
            crate::federation::strictly_sorted(keys_of(renamed@)),
            forall|k: Seq<char>|
                #[trigger] crate::resource::entry(renamed@, k) == last_rename(arriving@, outcomes@, i as int, k),
        decreases arriving.len() - i,
    {
        let name = &arriving[i].envelope.metadata.name;
        let ghost c0 = views(created@);
        let ghost r0 = views(replaced@);
        let ghost s0 = views(skipped@);
        match &outcomes[i] {
            Outcome::Created => {
                created.push(name.clone());
                assert(views(created@) =~= c0.push(name@));
            },
            Outcome::Replaced => {
                replaced.push(name.clone());
                assert(views(replaced@) =~= r0.push(name@));
            },
            Outcome::Skipped => {
                skipped.push(name.clone());
                assert(views(skipped@) =~= s0.push(name@));
            },
            Outcome::Renamed(new) => {
                put_sorted(&mut renamed, name, new.clone());
            },
        }
        i = i + 1;
    }
    ImportReport { created, replaced, skipped, renamed, native_files, lane, source, verified }
}


// ---------------------------------------------------------------------------------------
// Renames carried into references
// ---------------------------------------------------------------------------------------

/// The kind of the first kept manifest of this name.
pub open spec fn kind_named(kept: Seq<Envelope>, name: Seq<char>) -> Option<Seq<char>>
    decreases kept.len(),
{
    if kept.len() == 0 {
        None
    } else if kept[0].metadata.name@ == name {
        Some(kept[0].kind@)
    } else {
        kind_named(kept.drop_first(), name)
    }
}

/// One spec after one rename, through `mid`: every reference to the renamed resource of its
/// kind names the new name, and a renamed `ContextSpace` also moves the `{space}` segment of
/// every id. A rename whose new name no kept manifest carries changes nothing.
pub open spec fn renamed_spec(before: JsonValue, mid: JsonValue, after: JsonValue, kind: Option<Seq<char>>, from: Seq<char>, to: Seq<char>) -> bool {
    match kind {
        None => after == before,
        Some(k) => crate::rename::ref_renamed(before, mid, k, from, to) && if k == "ContextSpace"@ {
            crate::rename::space_moved(mid, after, from, to)
        } else {
            after == mid
        },
    }
}

/// One rename applied to every kept manifest, through the specs `mids`: only the specs change.
pub open spec fn rename_step(a: Seq<Envelope>, mids: Seq<JsonValue>, b: Seq<Envelope>, kind: Option<Seq<char>>, from: Seq<char>, to: Seq<char>) -> bool {
    &&& a.len() == b.len()
    &&& mids.len() == a.len()
    &&& forall|i: int|
        0 <= i < a.len() ==> {
            &&& (#[trigger] b[i]).kind == a[i].kind
            &&& b[i].api_version == a[i].api_version
            &&& b[i].metadata == a[i].metadata
            &&& b[i].phase == a[i].phase
            &&& renamed_spec(a[i].spec, mids[i], b[i].spec, kind, from, to)
        }
}

fn kind_of_name(kept: &Vec<Envelope>, name: &str) -> (r: Option<String>)
    ensures
        opt_seq_view(r) == kind_named(kept@, name@),
{
    let mut i: usize = 0;
    assert(kept@.subrange(0, kept@.len() as int) =~= kept@);
    while i < kept.len()
        invariant
            i <= kept@.len(),
            kind_named(kept@, name@) == kind_named(kept@.subrange(i as int, kept@.len() as int), name@),
        decreases kept.len() - i,
    {
        let ghost rest = kept@.subrange(i as int, kept@.len() as int);
        assert(rest.drop_first() =~= kept@.subrange(i + 1, kept@.len() as int));
        assert(rest[0] == kept@[i as int]);
        if str_eq(kept[i].metadata.name.as_str(), name) {
            return Some(kept[i].kind.clone());
        }
        i = i + 1;
    }
    None
}

pub open spec fn opt_seq_view(s: Option<String>) -> Option<Seq<char>> {
    match s {
        Some(x) => Some(x@),
        None => None,
    }
}

/// Every rename of an import carried into the references of the kept manifests, one rename
/// after another in the order given (`old -> new` pairs): after the `r`-th step each
/// reference to the `r`-th renamed resource names its new name.
pub fn apply_renames(kept: &mut Vec<Envelope>, renamed: &Vec<(String, String)>)
    ensures
        exists|h: Seq<Seq<Envelope>>, ms: Seq<Seq<JsonValue>>|
            #![trigger h.len(), ms.len()]
            h.len() == renamed@.len() + 1 && ms.len() == renamed@.len() && h[0] == old(kept)@ && h[renamed@.len() as int]
                == final(kept)@ && forall|r: int|
                0 <= r < renamed@.len() ==> rename_step(
                    #[trigger] h[r],
                    ms[r],
                    h[r + 1],
                    kind_named(old(kept)@, renamed@[r].1@),
                    renamed@[r].0@,
                    renamed@[r].1@,
                ),
{
    let ghost orig = kept@;
    let mut kinds: Vec<Option<String>> = Vec::new();
    let mut q: usize = 0;
    while q < renamed.len()
        invariant
            q <= renamed@.len(),
            kept@ == orig,
            kinds@.len() == q,
            forall|r: int| 0 <= r < q ==> opt_seq_view(#[trigger] kinds@[r]) == kind_named(orig, renamed@[r].1@),
        decreases renamed.len() - q,
    {
        let k = kind_of_name(kept, renamed[q].1.as_str());
        kinds.push(k);
        q = q + 1;
    }
    let ghost mut h: Seq<Seq<Envelope>> = seq![orig];
    let ghost mut ms: Seq<Seq<JsonValue>> = Seq::empty();
    let mut r: usize = 0;
    while r < renamed.len()
        invariant
            r <= renamed@.len(),
            kinds@.len() == renamed@.len(),
            forall|x: int| 0 <= x < renamed@.len() ==> opt_seq_view(#[trigger] kinds@[x]) == kind_named(orig, renamed@[x].1@),
            h.len() == r + 1,
            ms.len() == r,
            h[0] == orig,
            h[r as int] == kept@,
            forall|x: int|
                0 <= x < r ==> rename_step(
                    #[trigger] h[x],
                    ms[x],
                    h[x + 1],
                    kind_named(orig, renamed@[x].1@),
                    renamed@[x].0@,
                    renamed@[x].1@,
                ),
        decreases renamed.len() - r,
    {
        let ghost start = kept@;
        let from = renamed[r].0.as_str();
        let to = renamed[r].1.as_str();
        let ghost kind = kind_named(orig, renamed@[r as int].1@);
        let ghost mut mids: Seq<JsonValue> = Seq::empty();
        let mut i: usize = 0;
        while i < kept.len()
            invariant
                i <= kept@.len(),
                kept@.len() == start.len(),
                kind == opt_seq_view(kinds@[r as int]),
                r < kinds@.len(),
                from@ == renamed@[r as int].0@,
                to@ == renamed@[r as int].1@,
                mids.len() == i,
                forall|j: int|
                    0 <= j < i ==> {
                        &&& (#[trigger] kept@[j]).kind == start[j].kind
                        &&& kept@[j].api_version == start[j].api_version
                        &&& kept@[j].metadata == start[j].metadata
                        &&& kept@[j].phase == start[j].phase
                        &&& renamed_spec(start[j].spec, mids[j], kept@[j].spec, kind, from@, to@)
                    },
                forall|j: int| i <= j < kept@.len() ==> #[trigger] kept@[j] == start[j],
            decreases kept.len() - i,
        {
            let ghost before = kept@;
            let mut e = kept.remove(i);
            assert(e == start[i as int]);
            let ghost mut mid = e.spec;
            match &kinds[r] {
                Some(k) => {
                    crate::rename::rewrite_reference(&mut e.spec, k.as_str(), from, to);
                    proof {
                        mid = e.spec;
                    }
                    if str_eq(k.as_str(), "ContextSpace") {
                        crate::rename::rewrite_space(&mut e.spec, from, to);
                    }
                },
                None => {},
            }
            assert(renamed_spec(start[i as int].spec, mid, e.spec, kind, from@, to@));
            proof {
                mids = mids.push(mid);
            }
            kept.insert(i, e);
            assert(kept@[i as int] == e);
            assert forall|j: int| i + 1 <= j < kept@.len() implies #[trigger] kept@[j] == start[j] by {
                assert(kept@[j] == before[j]);
            }
            assert forall|j: int| 0 <= j < i implies #[trigger] kept@[j] == before[j] by {}
            i = i + 1;
        }
        proof {
            let next = kept@;
            assert(rename_step(start, mids, next, kind, from@, to@));
            let h2 = h.push(next);
            let ms2 = ms.push(mids);
            assert forall|x: int|
                0 <= x < r + 1 implies rename_step(
                    #[trigger] h2[x],
                    ms2[x],
                    h2[x + 1],
                    kind_named(orig, renamed@[x].1@),
                    renamed@[x].0@,
                    renamed@[x].1@,
                ) by {
                if x < r {
                    assert(h2[x] == h[x] && h2[x + 1] == h[x + 1] && ms2[x] == ms[x]);
                } else {
                    assert(h2[x] == start && h2[x + 1] == next && ms2[x] == mids);
                }
            }
            h = h2;
            ms = ms2;
        }
        r = r + 1;
    }
}


// ---------------------------------------------------------------------------------------
// The slug of an imported endpoint
// ---------------------------------------------------------------------------------------

pub open spec fn needs_slug(e: Envelope, held: Seq<(String, String)>) -> bool {
    e.kind@ == "Endpoint"@ && crate::resource::entry(held, e.metadata.name@) is None
}

/// How many of the first `n` manifests are endpoints this instance has minted no slug for.
pub open spec fn fresh_needed(kept: Seq<Envelope>, held: Seq<(String, String)>, n: int) -> nat
    decreases n,
{
    if n <= 0 {
        0
    } else {
        fresh_needed(kept, held, n - 1) + if needs_slug(kept[n - 1], held) {
            1nat
        } else {
            0nat
        }
    }
}

/// The slug an imported endpoint is served at: the one this instance already minted for an
/// endpoint of its name (`held`, name to slug), else the next of the `fresh` ones.
pub open spec fn slug_for(kept: Seq<Envelope>, held: Seq<(String, String)>, fresh: Seq<String>, i: int) -> Seq<char> {
    match crate::resource::entry(held, kept[i].metadata.name@) {
        Some(s) => s,
        None => fresh[fresh_needed(kept, held, i) as int]@,
    }
}

/// The slug is the endpoint's public address and the platform mints it: an imported endpoint
/// keeps the slug this instance already gave an endpoint of its name, or takes a new one, never
/// the source's.
pub fn assign_slugs(kept: &mut Vec<Envelope>, held: &Vec<(String, String)>, fresh: &Vec<String>)
    requires
        fresh@.len() >= fresh_needed(old(kept)@, held@, old(kept)@.len() as int),
    ensures
        final(kept)@.len() == old(kept)@.len(),
        forall|i: int|
            0 <= i < old(kept)@.len() ==> {
                let a = old(kept)@[i];
                let b = #[trigger] final(kept)@[i];
                &&& b.kind == a.kind && b.api_version == a.api_version && b.metadata == a.metadata && b.phase == a.phase
                &&& if a.kind@ == "Endpoint"@ && a.spec is Object {
                    b.spec matches JsonValue::Object(m) && (member(m@, "slug"@) matches Some(JsonValue::Str(t)) && t@
                        == slug_for(old(kept)@, held@, fresh@, i)) && forall|k: Seq<char>|
                        k != "slug"@ ==> #[trigger] member(m@, k) == member(a.spec->Object_0@, k)
                } else {
                    b.spec == a.spec
                }
            },
{
    let ghost orig = kept@;
    let mut used: usize = 0;
    let mut i: usize = 0;
    while i < kept.len()
        invariant
            i <= kept@.len(),
            kept@.len() == orig.len(),
            used == fresh_needed(orig, held@, i as int),
            fresh@.len() >= fresh_needed(orig, held@, orig.len() as int),
            forall|j: int| i <= j < kept@.len() ==> #[trigger] kept@[j] == orig[j],
            forall|j: int|
                0 <= j < i ==> {
                    let a = orig[j];
                    let b = #[trigger] kept@[j];
                    &&& b.kind == a.kind && b.api_version == a.api_version && b.metadata == a.metadata && b.phase == a.phase
                    &&& if a.kind@ == "Endpoint"@ && a.spec is Object {
                        b.spec matches JsonValue::Object(m) && (member(m@, "slug"@) matches Some(JsonValue::Str(t))
                            && t@ == slug_for(orig, held@, fresh@, j)) && forall|k: Seq<char>|
                            k != "slug"@ ==> #[trigger] member(m@, k) == member(a.spec->Object_0@, k)
                    } else {
                        b.spec == a.spec
                    }
                },
        decreases kept.len() - i,
    {
        proof {
            lemma_fresh_needed_grows(orig, held@, i as int + 1, orig.len() as int);
        }
        let ghost before = kept@;
        let mut e = kept.remove(i);
        assert(e == orig[i as int]);
        if str_eq(e.kind.as_str(), "Endpoint") {
            let slug = match crate::resource::entry_of(held, e.metadata.name.as_str()) {
                Some(s) => s.clone(),
                None => {
                    assert(needs_slug(orig[i as int], held@));
                    assert(fresh_needed(orig, held@, i + 1) == used + 1);
                    assert(used + 1 <= fresh@.len());
                    assert(fresh@.len() == fresh.len());
                    let f = fresh[used].clone();
                    used = used + 1;
                    f
                },
            };
            assert(slug@ == slug_for(orig, held@, fresh@, i as int));
            match &mut e.spec {
                JsonValue::Object(m) => {
                    crate::json_edit::set_member(m, "slug", JsonValue::Str(slug));
                },
                _ => {},
            }
        }
        kept.insert(i, e);
        assert(kept@[i as int] == e);
        assert forall|j: int| i + 1 <= j < kept@.len() implies #[trigger] kept@[j] == orig[j] by {
            assert(kept@[j] == before[j]);
        }
        assert forall|j: int| 0 <= j < i implies #[trigger] kept@[j] == before[j] by {}
        i = i + 1;
    }
}

proof fn lemma_fresh_needed_grows(kept: Seq<Envelope>, held: Seq<(String, String)>, a: int, b: int)
    requires
        0 <= a <= b,
    ensures
        fresh_needed(kept, held, a) <= fresh_needed(kept, held, b),
    decreases b - a,
{
    if a < b {
        lemma_fresh_needed_grows(kept, held, a, b - 1);
    }
}


/// The manifest a non-skipped outcome writes: the manifest itself, under its new name when it
/// was renamed.
pub open spec fn written_as(a: Envelope, o: Outcome, e: Envelope) -> bool {
    &&& e.kind == a.kind && e.api_version == a.api_version && e.spec == a.spec && e.phase == a.phase
    &&& e.metadata.namespace == a.metadata.namespace && e.metadata.labels == a.metadata.labels
    &&& e.metadata.annotations == a.metadata.annotations && e.metadata.title == a.metadata.title
    &&& e.metadata.description == a.metadata.description
    &&& e.metadata.name@ == match o {
        Outcome::Renamed(n) => n@,
        _ => a.metadata.name@,
    }
}

/// Which manifests of the bundle are kept, in order: the indices of those not skipped.
pub open spec fn kept_indices(outcomes: Seq<Outcome>, n: int) -> Seq<int>
    decreases n,
{
    if n <= 0 {
        Seq::empty()
    } else if outcomes[n - 1] is Skipped {
        kept_indices(outcomes, n - 1)
    } else {
        kept_indices(outcomes, n - 1).push(n - 1)
    }
}

/// The manifests an import writes: every one not skipped, in bundle order, a renamed one under
/// its new name.
pub fn kept_manifests(arriving: Vec<Arriving>, outcomes: &Vec<Outcome>) -> (kept: Vec<Envelope>)
    requires
        outcomes@.len() == arriving@.len(),
    ensures
        kept@.len() == kept_indices(outcomes@, outcomes@.len() as int).len(),
        forall|q: int|
            0 <= q < kept@.len() ==> {
                let i = kept_indices(outcomes@, outcomes@.len() as int)[q];
                written_as(arriving@[i].envelope, outcomes@[i], #[trigger] kept@[q])
            },
{
    let ghost orig = arriving@;
    let mut rest = arriving;
    let mut kept: Vec<Envelope> = Vec::new();
    let n = rest.len();
    let mut i: usize = 0;
    while i < n
        invariant
            i <= n == orig.len() == outcomes@.len(),
            rest@ == orig.subrange(i as int, n as int),
            kept@.len() == kept_indices(outcomes@, i as int).len(),
            forall|x: int| 0 <= x < kept_indices(outcomes@, i as int).len() ==> 0 <= #[trigger] kept_indices(outcomes@, i as int)[x] < i,
            forall|q: int|
                0 <= q < kept@.len() ==> {
                    let j = kept_indices(outcomes@, i as int)[q];
                    written_as(orig[j].envelope, outcomes@[j], #[trigger] kept@[q])
                },
        decreases n - i,
    {
        let a = rest.remove(0);
        assert(a == orig[i as int]);
        assert(rest@ =~= orig.subrange(i + 1, n as int));
        let ghost ks = kept_indices(outcomes@, i as int);
        let ghost before = kept@;
        match &outcomes[i] {
            Outcome::Skipped => {},
            Outcome::Renamed(new) => {
                let mut e = a.envelope;
                e.metadata.name = new.clone();
                kept.push(e);
            },
            _ => {
                kept.push(a.envelope);
            },
        }
        proof {
            let ks2 = kept_indices(outcomes@, i + 1);
            if !(outcomes@[i as int] is Skipped) {
                assert(ks2 == ks.push(i as int));
                assert forall|q: int| 0 <= q < kept@.len() implies {
                    let j = ks2[q];
                    written_as(orig[j].envelope, outcomes@[j], #[trigger] kept@[q])
                } by {
                    if q < before.len() {
                        assert(ks2[q] == ks[q]);
                        assert(kept@[q] == before[q]);
                    }
                }
                assert forall|x: int| 0 <= x < ks2.len() implies 0 <= #[trigger] ks2[x] < i + 1 by {
                    if x < ks.len() {
                        assert(ks2[x] == ks[x]);
                    }
                }
            }
        }
        i = i + 1;
    }
    kept
}

} // verus!
