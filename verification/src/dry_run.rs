//! The `?dryRun` switch of the mutating routes, and what a dry run tells a approver about a
//! manifest before anyone approves it.

use vstd::prelude::*;
use crate::error::ApiError;
use crate::json::{views, JsonValue};
use crate::text::{
    append_chars, append_str, chars_of, contains, decimal, decimal_of, has_char, has_infix,
    matches_at, occurs_at, str_eq, string_of,
};

verus! {

/// The query of a mutating route.
#[derive(Debug)]
pub struct DryRunQuery {
    /// `?dryRun`: `All` or nothing.
    pub dry_run: Option<String>,
    /// Write into this workspace's branch instead of opening a Change.
    pub workspace: Option<String>,
}

pub open spec fn invalid_dry_run(other: Seq<char>) -> Seq<char> {
    "invalid dryRun value '"@ + other + "'; 'All' is the only accepted value"@
}

/// Evaluates the `?dryRun` query parameter.
///
/// `None` evaluates to `false` (mutations execute normally).
/// `Some("All")` evaluates to `true` (dry run: plan is computed without mutating state).
/// Any other value is rejected with 400 Bad Request naming `All` as the only accepted value.
pub fn is_dry_run(q: &DryRunQuery) -> (r: Result<bool, ApiError>)
    ensures
        match q.dry_run {
            None => r == Ok::<bool, ApiError>(false),
            Some(v) => if v@ == "All"@ {
                r == Ok::<bool, ApiError>(true)
            } else {
                r matches Err(ApiError::BadRequest(m)) && m@ == invalid_dry_run(v@)
            },
        },
{
    match &q.dry_run {
        None => Ok(false),
        Some(v) => {
            if str_eq(v.as_str(), "All") {
                Ok(true)
            } else {
                let mut m = chars_of("invalid dryRun value '");
                append_str(&mut m, v.as_str());
                append_str(&mut m, "'; 'All' is the only accepted value");
                Err(ApiError::BadRequest(string_of(m.as_slice())))
            }
        },
    }
}

// ---------------------------------------------------------------------------------------
// Literal organisation domains
// ---------------------------------------------------------------------------------------

/// `str::replace` for a pattern that is not empty: every occurrence, left to right, without
/// overlaps, replaced.
pub open spec fn replaced(s: Seq<char>, from: Seq<char>, to: Seq<char>) -> Seq<char>
    decreases s.len(),
{
    if from.len() == 0 || s.len() < from.len() {
        s
    } else if s.subrange(0, from.len() as int) == from {
        to + replaced(s.subrange(from.len() as int, s.len() as int), from, to)
    } else {
        seq![s[0]] + replaced(s.drop_first(), from, to)
    }
}

pub fn replace_all(s: &[char], from: &[char], to: &[char]) -> (out: Vec<char>)
    requires
        from@.len() > 0,
    ensures
        out@ == replaced(s@, from@, to@),
{
    let mut out: Vec<char> = Vec::new();
    let mut i: usize = 0;
    assert(s@.subrange(0, s@.len() as int) =~= s@);
    while i < s.len()
        invariant
            i <= s@.len(),
            from@.len() > 0,
            out@ + replaced(s@.subrange(i as int, s@.len() as int), from@, to@) == replaced(
                s@,
                from@,
                to@,
            ),
        decreases s.len() - i,
    {
        let ghost rest = s@.subrange(i as int, s@.len() as int);
        if matches_at(s, from, i) {
            assert(rest.subrange(0, from@.len() as int) =~= s@.subrange(i as int, i + from@.len()));
            assert(rest.subrange(from@.len() as int, rest.len() as int) =~= s@.subrange(
                i + from@.len(),
                s@.len() as int,
            ));
            let ghost before = out@;
            append_chars(&mut out, to);
            assert(before + replaced(rest, from@, to@) =~= out@ + replaced(
                s@.subrange(i + from@.len(), s@.len() as int),
                from@,
                to@,
            ));
            i = i + from.len();
        } else {
            proof {
                if rest.len() >= from@.len() {
                    assert(rest.subrange(0, from@.len() as int) =~= s@.subrange(
                        i as int,
                        i + from@.len(),
                    ));
                }
            }
            assert(rest.drop_first() =~= s@.subrange(i + 1, s@.len() as int));
            let ghost before = out@;
            out.push(s[i]);
            assert(before + replaced(rest, from@, to@) =~= out@ + replaced(
                s@.subrange(i + 1, s@.len() as int),
                from@,
                to@,
            ));
            i = i + 1;
        }
    }
    assert(s@.subrange(i as int, s@.len() as int) =~= Seq::<char>::empty());
    assert(out@ + Seq::<char>::empty() =~= out@);
    out
}

/// What a dry run says of one string that writes the organisation's domain out.
pub open spec fn finding(path: Seq<char>, text: Seq<char>, domain: Seq<char>) -> Seq<char> {
    path + " writes the organization's domain out: `"@ + text + "`; write `"@ + replaced(
        text,
        domain,
        "{orgDomain}"@,
    ) + "` for `"@ + domain + "`, so a copy renders the organization it lands in (CC-83)"@
}

/// Every string under `v`, at JSON path `path`, that writes `domain` out, in document order.
/// A domain without a dot is no organisation's domain and finds nothing.
pub open spec fn domain_findings(v: JsonValue, path: Seq<char>, domain: Seq<char>) -> Seq<Seq<char>>
    decreases v, 0int,
{
    match v {
        JsonValue::Str(t) => if domain.contains('.') && contains(t@, domain) {
            seq![finding(path, t@, domain)]
        } else {
            Seq::empty()
        },
        JsonValue::Array(items) => item_findings(items@, path, domain, items@.len() as int),
        JsonValue::Object(members) => member_findings(
            members@,
            path,
            domain,
            members@.len() as int,
        ),
        _ => Seq::empty(),
    }
}

/// The findings of the first `n` items of an array at `path`.
pub open spec fn item_findings(items: Seq<JsonValue>, path: Seq<char>, domain: Seq<char>, n: int) -> Seq<Seq<char>>
    decreases items, n,
{
    if n <= 0 || n > items.len() {
        Seq::empty()
    } else {
        item_findings(items, path, domain, n - 1) + domain_findings(
            items[n - 1],
            path + "["@ + decimal((n - 1) as nat) + "]"@,
            domain,
        )
    }
}

/// The findings of the first `n` members of an object at `path`.
pub open spec fn member_findings(
    members: Seq<(String, JsonValue)>,
    path: Seq<char>,
    domain: Seq<char>,
    n: int,
) -> Seq<Seq<char>>
    decreases members, n,
{
    if n <= 0 || n > members.len() {
        Seq::empty()
    } else {
        member_findings(members, path, domain, n - 1) + domain_findings(
            members[n - 1].1,
            path + "."@ + members[n - 1].0@,
            domain,
        )
    }
}

fn walk(value: &JsonValue, path: &Vec<char>, domain: &[char], found: &mut Vec<String>)
    ensures
        views(final(found)@) == views(old(found)@) + domain_findings(*value, path@, domain@),
    decreases value,
{
    match value {
        JsonValue::Str(text) => {
            let t = chars_of(text.as_str());
            if has_char(domain, '.') && has_infix(t.as_slice(), domain) {
                let mut m = path.clone();
                append_str(&mut m, " writes the organization's domain out: `");
                append_chars(&mut m, t.as_slice());
                append_str(&mut m, "`; write `");
                let placeholder = chars_of("{orgDomain}");
                assert(domain@.contains('.'));
                let r = replace_all(t.as_slice(), domain, placeholder.as_slice());
                append_chars(&mut m, r.as_slice());
                append_str(&mut m, "` for `");
                append_chars(&mut m, domain);
                append_str(&mut m, "`, so a copy renders the organization it lands in (CC-83)");
                let ghost before = views(found@);
                found.push(string_of(m.as_slice()));
                assert(views(found@) =~= before + seq![finding(path@, t@, domain@)]);
            } else {
                assert(views(found@) =~= views(found@) + Seq::<Seq<char>>::empty());
            }
        },
        JsonValue::Array(items) => {
            let ghost start = views(found@);
            let mut i: usize = 0;
            assert(start =~= start + item_findings(items@, path@, domain@, 0));
            while i < items.len()
                invariant
                    i <= items@.len(),
                    *value == JsonValue::Array(*items),
                    views(found@) == start + item_findings(items@, path@, domain@, i as int),
                decreases items.len() - i,
            {
                let mut p = path.clone();
                append_str(&mut p, "[");
                let digits = decimal_of(i as u64);
                append_chars(&mut p, digits.as_slice());
                append_str(&mut p, "]");
                let ghost before = views(found@);
                assert(decreases_to!(*value => (*value)->Array_0));
                assert(decreases_to!(*items => items@));
                assert(decreases_to!(items@ => items@[i as int]));
                assert(decreases_to!(*value => items@[i as int]));
                walk(&items[i], &p, domain, found);
                assert(start + item_findings(items@, path@, domain@, i + 1) =~= before
                    + domain_findings(items@[i as int], p@, domain@));
                i = i + 1;
            }
        },
        JsonValue::Object(members) => {
            let ghost start = views(found@);
            let mut i: usize = 0;
            assert(start =~= start + member_findings(members@, path@, domain@, 0));
            while i < members.len()
                invariant
                    i <= members@.len(),
                    *value == JsonValue::Object(*members),
                    views(found@) == start + member_findings(members@, path@, domain@, i as int),
                decreases members.len() - i,
            {
                let mut p = path.clone();
                append_str(&mut p, ".");
                append_str(&mut p, members[i].0.as_str());
                let ghost before = views(found@);
                assert(decreases_to!(*value => (*value)->Object_0));
                assert(decreases_to!(*members => members@));
                assert(decreases_to!(members@ => members@[i as int]));
                assert(decreases_to!(members@[i as int] => members@[i as int].1));
                assert(decreases_to!(*value => members@[i as int].1));
                walk(&members[i].1, &p, domain, found);
                assert(start + member_findings(members@, path@, domain@, i + 1) =~= before
                    + domain_findings(members@[i as int].1, p@, domain@));
                i = i + 1;
            }
        },
        _ => {
            assert(views(found@) =~= views(found@) + Seq::<Seq<char>>::empty());
        },
    }
}

/// Every string under `value` that writes `org_domain` out, as a finding naming its JSON
/// path under `spec` and `{orgDomain}` as the replacement.
pub fn literal_domain_findings(value: &JsonValue, org_domain: &str) -> (found: Vec<String>)
    ensures
        views(found@) == domain_findings(*value, "spec"@, org_domain@),
{
    let mut found: Vec<String> = Vec::new();
    let path = chars_of("spec");
    let domain = chars_of(org_domain);
    walk(value, &path, domain.as_slice(), &mut found);
    assert(views(found@) =~= Seq::<Seq<char>>::empty() + domain_findings(*value, "spec"@, org_domain@));
    found
}

/// One fetch of a DataSource on the project's runner, or why there was none.
#[derive(Debug)]
pub struct Probe {
    /// Messages after the format split; one for a JSON document, one per element of an array.
    pub records: Option<usize>,
    pub bytes: Option<usize>,
    /// The first record as data.
    pub sample: Option<JsonValue>,
    /// Why the source was not fetched: a credential, no runner, a feed that did not answer.
    pub skipped: Option<String>,
}

impl Probe {
    /// A probe that did not fetch, and why.
    pub fn skipped(reason: String) -> (p: Probe)
        ensures
            p.records is None && p.bytes is None && p.sample is None,
            p.skipped == Some(reason),
    {
        Probe { records: None, bytes: None, sample: None, skipped: Some(reason) }
    }
}

} // verus!
