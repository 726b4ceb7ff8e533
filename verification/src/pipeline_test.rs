//! Testing a candidate pipeline before it is proposed, and probing an `http` DataSource
//! beside a dry run: which manifest is tested, which source is fetched, the words a failed
//! fetch is reported in, and the one test a project may run at a time.

use vstd::prelude::*;
use crate::dry_run::Probe;
use crate::error::ApiError;
use crate::json::{get, get_text, member, JsonValue};
use crate::json_edit::set_member;
use crate::text::{
    after_last, after_last_of, append_chars, append_str, chars_of, contains, ends_with,
    find_pattern, first_match, has_infix, has_prefix, has_suffix, slice_of, starts_with, str_eq,
    string_of,
};

verus! {

// ---------------------------------------------------------------------------------------
// The manifest a test runs
// ---------------------------------------------------------------------------------------

/// The namespace a candidate names, when it names one as text.
pub open spec fn namespace_of(pipeline: JsonValue) -> Option<Seq<char>> {
    match get(pipeline, "metadata"@) {
        Some(md) => get_text(md, "namespace"@),
        None => None,
    }
}

/// The candidate a test runs: a Pipeline of the project of the URL. A draft that names no
/// namespace is given the project's; one naming another project is refused, as is a manifest
/// of another kind. What the kind's own rules say of the result is the caller's to ask.
pub fn candidate_manifest(pipeline: JsonValue, project: &str) -> (r: Result<JsonValue, ApiError>)
    ensures
        get_text(pipeline, "kind"@) != Some("Pipeline"@) ==> (r matches Err(ApiError::BadRequest(m))
            && m@ == "pipeline.kind must be 'Pipeline'"@),
        get_text(pipeline, "kind"@) == Some("Pipeline"@) && namespace_of(pipeline) is Some
            && namespace_of(pipeline)->0 != project@ ==> (r matches Err(ApiError::BadRequest(m))
            && m@ == "pipeline.metadata.namespace '"@ + namespace_of(pipeline)->0
            + "' is not the project '"@ + project@ + "'"@),
        get_text(pipeline, "kind"@) == Some("Pipeline"@) && namespace_of(pipeline) == Some(project@)
            ==> r == Ok::<JsonValue, ApiError>(pipeline),
        get_text(pipeline, "kind"@) == Some("Pipeline"@) && namespace_of(pipeline) is None ==> (r matches Ok(c)
            && c is Object
            && (forall|k: Seq<char>| k != "metadata"@ ==> #[trigger] get(c, k) == get(pipeline, k))
            && match get(pipeline, "metadata"@) {
            Some(JsonValue::Object(md)) => get(c, "metadata"@) matches Some(JsonValue::Object(nd))
                && get_text(JsonValue::Object(nd), "namespace"@) == Some(project@)
                && forall|k: Seq<char>| k != "namespace"@ ==> #[trigger] member(nd@, k) == member(md@, k),
            Some(other) => get(c, "metadata"@) == Some(other),
            None => get(c, "metadata"@) == Some(JsonValue::Null),
        }),
{
    let is_pipeline = match pipeline.text_at("kind") {
        Some(k) => str_eq(k.as_str(), "Pipeline"),
        None => false,
    };
    if !is_pipeline {
        let m = chars_of("pipeline.kind must be 'Pipeline'");
        return Err(ApiError::BadRequest(string_of(m.as_slice())));
    }
    let named: Option<String> = match pipeline.get_member("metadata") {
        Some(md) => match md.text_at("namespace") {
            Some(ns) => Some(ns.clone()),
            None => None,
        },
        None => None,
    };
    match named {
        Some(ns) => {
            if str_eq(ns.as_str(), project) {
                Ok(pipeline)
            } else {
                let mut m: Vec<char> = chars_of("pipeline.metadata.namespace '");
                append_str(&mut m, ns.as_str());
                append_str(&mut m, "' is not the project '");
                append_str(&mut m, project);
                append_str(&mut m, "'");
                Err(ApiError::BadRequest(string_of(m.as_slice())))
            }
        },
        None => {
            let ghost before = pipeline;
            let mut top = match pipeline {
                JsonValue::Object(t) => t,
                other => {
                    proof {
                        assert(false);
                    }
                    return Ok(other);
                },
            };
            let ghost old_top = top@;
            let md = crate::json_edit::take_member(&mut top, "metadata");
            let ghost md_g = md;
            let ghost rest = top@;
            match md {
                Some(JsonValue::Object(mut fields)) => {
                    let ghost old_fields = fields@;
                    let c = chars_of(project);
                    let ns = string_of(c.as_slice());
                    let ghost ns_g = ns;
                    set_member(&mut fields, "namespace", JsonValue::Str(ns));
                    let ghost new_fields = fields@;
                    set_member(&mut top, "metadata", JsonValue::Object(fields));
                    proof {
                        assert(member(top@, "metadata"@) == Some(JsonValue::Object(fields)));
                        assert(member(new_fields, "namespace"@) == Some(JsonValue::Str(ns_g)));
                        assert forall|k: Seq<char>| k != "namespace"@ implies #[trigger] member(new_fields, k)
                            == member(old_fields, k) by {}
                    }
                    let ghost fin = top@;
                    proof {
                        assert forall|k: Seq<char>| k != "metadata"@ implies #[trigger] member(fin, k) == member(
                            old_top,
                            k,
                        ) by {
                            assert(member(fin, k) == member(rest, k));
                        }
                    }
                    Ok(JsonValue::Object(top))
                },
                Some(other) => {
                    set_member(&mut top, "metadata", other);
                    let ghost fin = top@;
                    proof {
                        assert forall|k: Seq<char>| k != "metadata"@ implies #[trigger] member(fin, k) == member(
                            old_top,
                            k,
                        ) by {
                            assert(member(fin, k) == member(rest, k));
                        }
                    }
                    Ok(JsonValue::Object(top))
                },
                None => {
                    set_member(&mut top, "metadata", JsonValue::Null);
                    let ghost fin = top@;
                    proof {
                        assert forall|k: Seq<char>| k != "metadata"@ implies #[trigger] member(fin, k) == member(
                            old_top,
                            k,
                        ) by {
                            assert(member(fin, k) == member(rest, k));
                        }
                    }
                    Ok(JsonValue::Object(top))
                },
            }
        },
    }
}

// ---------------------------------------------------------------------------------------
// Probing a source
// ---------------------------------------------------------------------------------------

/// A probe that did not fetch, for this reason.
pub open spec fn skipped_with(p: Probe, reason: Seq<char>) -> bool {
    &&& p.records is None && p.bytes is None && p.sample is None
    &&& p.skipped matches Some(m) && m@ == reason
}

/// Whether an `http` source declares a credential: an `authorization` that is not null.
pub open spec fn declares_credential(spec: JsonValue) -> bool {
    match get(spec, "http"@) {
        Some(h) => match get(h, "authorization"@) {
            Some(a) => !(a is Null),
            None => false,
        },
        None => false,
    }
}

/// The URL an `http` source names.
pub open spec fn source_url(spec: JsonValue) -> Option<Seq<char>> {
    match get(spec, "http"@) {
        Some(h) => get_text(h, "url"@),
        None => None,
    }
}

pub open spec fn is_http_url(u: Seq<char>) -> bool {
    starts_with(u, "http://"@) || starts_with(u, "https://"@)
}

/// Whether a DataSource is probed, and at which URL: only an `http` source, never one that
/// declares a credential (a dry run resolves none), and only at an http(s) URL; every other
/// `http` source is a skipped probe with the reason.
pub fn probe_plan(spec: &JsonValue) -> (r: Option<Result<String, Probe>>)
    ensures
        get_text(*spec, "type"@) != Some("http"@) ==> r is None,
        get_text(*spec, "type"@) == Some("http"@) && declares_credential(*spec) ==> (r matches Some(
            Err(p),
        ) && skipped_with(p, "the source declares a credential; a dry run resolves none (MF-38)"@)),
        get_text(*spec, "type"@) == Some("http"@) && !declares_credential(*spec) ==> match source_url(
            *spec,
        ) {
            Some(u) => if is_http_url(u) {
                r matches Some(Ok(x)) && x@ == u
            } else {
                r matches Some(Err(p)) && skipped_with(p, "the source names no http(s) URL"@)
            },
            None => r matches Some(Err(p)) && skipped_with(p, "the source names no http(s) URL"@),
        },
{
    let is_http = match spec.text_at("type") {
        Some(t) => str_eq(t.as_str(), "http"),
        None => false,
    };
    if !is_http {
        return None;
    }
    let credential = match spec.get_member("http") {
        Some(h) => match h.get_member("authorization") {
            Some(JsonValue::Null) => false,
            Some(_) => true,
            None => false,
        },
        None => false,
    };
    if credential {
        let m = chars_of("the source declares a credential; a dry run resolves none (MF-38)");
        return Some(Err(Probe::skipped(string_of(m.as_slice()))));
    }
    let url: Option<&String> = match spec.get_member("http") {
        Some(h) => h.text_at("url"),
        None => None,
    };
    let none = chars_of("the source names no http(s) URL");
    match url {
        Some(u) => {
            let c = chars_of(u.as_str());
            let plain = chars_of("http://");
            let secure = chars_of("https://");
            if has_prefix(c.as_slice(), plain.as_slice()) || has_prefix(c.as_slice(), secure.as_slice()) {
                Some(Ok(u.clone()))
            } else {
                Some(Err(Probe::skipped(string_of(none.as_slice()))))
            }
        },
        None => Some(Err(Probe::skipped(string_of(none.as_slice())))),
    }
}

/// The texts by which the test harness marks a failed fetch and an empty answer.
pub struct FeedMarkers {
    /// What the message of a failed fetch starts with.
    pub fetch_failed: String,
    /// What a fetch that answered an empty body ends with, and the words it is reported in.
    pub empty_body: String,
}

/// `str::split(p).next()`: what comes before the first occurrence of `p`, or all of `s`.
pub open spec fn before_first(s: Seq<char>, p: Seq<char>) -> Seq<char> {
    let k = first_match(s, p);
    if k >= 0 {
        s.subrange(0, k)
    } else {
        s
    }
}

/// The HTTP status a failed fetch names: what follows `): ` after `unexpected response code (`,
/// up to `, Error:`.
pub open spec fn status_of(fetch: Seq<char>) -> Option<Seq<char>> {
    let a = first_match(fetch, "unexpected response code ("@);
    if a >= 0 {
        let rest = fetch.subrange(a + "unexpected response code ("@.len(), fetch.len() as int);
        let b = first_match(rest, "): "@);
        if b >= 0 {
            Some(before_first(rest.subrange(b + "): "@.len(), rest.len() as int), ", Error:"@))
        } else {
            None
        }
    } else {
        None
    }
}

/// A failed fetch or parse in plain words: the HTTP status, a timeout, an empty body, or the
/// last clause of the transport or JSON error.
pub open spec fn outcome(error: Seq<char>, fetch_failed: Seq<char>, empty_body: Seq<char>) -> Seq<char> {
    if !starts_with(error, fetch_failed) {
        "the feed is not JSON: "@ + after_last(error, ": "@)
    } else {
        let fetch = error.subrange(fetch_failed.len() as int, error.len() as int);
        match status_of(fetch) {
            Some(s) => "the feed answered "@ + s,
            None => if contains(fetch, "Client.Timeout"@) || contains(fetch, "deadline exceeded"@) {
                "the feed did not answer within the test's three seconds"@
            } else if ends_with(fetch, empty_body) {
                empty_body
            } else {
                "the feed could not be reached: "@ + after_last(fetch, ": "@)
            },
        }
    }
}

fn before_first_of(s: &[char], p: &[char]) -> (out: Vec<char>)
    ensures
        out@ == before_first(s@, p@),
{
    match find_pattern(s, p) {
        Some(k) => slice_of(s, 0, k),
        None => slice_of(s, 0, s.len()),
    }
}

fn status_in(fetch: &[char]) -> (r: Option<Vec<char>>)
    ensures
        match r {
            Some(s) => status_of(fetch@) == Some(s@),
            None => status_of(fetch@) is None,
        },
{
    let code = chars_of("unexpected response code (");
    let close = chars_of("): ");
    let err = chars_of(", Error:");
    let a = match find_pattern(fetch, code.as_slice()) {
        Some(a) => a,
        None => return None,
    };
    let n = fetch.len();
    let cl = code.len();
    assert(a + cl <= n);
    let rest = slice_of(fetch, a + cl, n);
    let b = match find_pattern(rest.as_slice(), close.as_slice()) {
        Some(b) => b,
        None => return None,
    };
    let rn = rest.len();
    let cn = close.len();
    assert(b + cn <= rn);
    let tail = slice_of(rest.as_slice(), b + cn, rn);
    Some(before_first_of(tail.as_slice(), err.as_slice()))
}

/// The reason a probe gives for a feed that failed it.
pub fn outcome_of(error: &str, markers: &FeedMarkers) -> (r: String)
    ensures
        r@ == outcome(error@, markers.fetch_failed@, markers.empty_body@),
{
    let e = chars_of(error);
    let ff = chars_of(markers.fetch_failed.as_str());
    let sep = chars_of(": ");
    if !has_prefix(e.as_slice(), ff.as_slice()) {
        let mut m: Vec<char> = chars_of("the feed is not JSON: ");
        let last = after_last_of(e.as_slice(), sep.as_slice());
        append_chars(&mut m, last.as_slice());
        return string_of(m.as_slice());
    }
    let fetch = slice_of(e.as_slice(), ff.len(), e.len());
    match status_in(fetch.as_slice()) {
        Some(s) => {
            let mut m: Vec<char> = chars_of("the feed answered ");
            append_chars(&mut m, s.as_slice());
            string_of(m.as_slice())
        },
        None => {
            let timeout = chars_of("Client.Timeout");
            let deadline = chars_of("deadline exceeded");
            let empty = chars_of(markers.empty_body.as_str());
            if has_infix(fetch.as_slice(), timeout.as_slice()) || has_infix(fetch.as_slice(), deadline.as_slice()) {
                let m = chars_of("the feed did not answer within the test's three seconds");
                string_of(m.as_slice())
            } else if has_suffix(fetch.as_slice(), empty.as_slice()) {
                markers.empty_body.clone()
            } else {
                let mut m: Vec<char> = chars_of("the feed could not be reached: ");
                let last = after_last_of(fetch.as_slice(), sep.as_slice());
                append_chars(&mut m, last.as_slice());
                string_of(m.as_slice())
            }
        },
    }
}

/// One error of a test's trace: the stage it came from and what it said.
pub struct TraceError {
    pub stage: String,
    pub message: String,
}

/// What a probe reads of its test's trace: the input stage's counts and first record, and the
/// errors.
pub struct TraceSummary {
    pub events: usize,
    pub bytes: usize,
    pub sample: Option<JsonValue>,
    pub errors: Vec<TraceError>,
}

/// The message of the first error that is not the runner's own.
pub open spec fn first_feed_error(errors: Seq<TraceError>) -> Option<Seq<char>>
    decreases errors.len(),
{
    if errors.len() == 0 {
        None
    } else if errors[0].stage@ != "runner"@ {
        Some(errors[0].message@)
    } else {
        first_feed_error(errors.drop_first())
    }
}

fn feed_error(errors: &Vec<TraceError>) -> (r: Option<&String>)
    ensures
        match r {
            Some(m) => first_feed_error(errors@) == Some(m@),
            None => first_feed_error(errors@) is None,
        },
{
    let mut i: usize = 0;
    assert(errors@.subrange(0, errors@.len() as int) =~= errors@);
    while i < errors.len()
        invariant
            i <= errors@.len(),
            first_feed_error(errors@) == first_feed_error(errors@.subrange(i as int, errors@.len() as int)),
        decreases errors.len() - i,
    {
        let ghost rest = errors@.subrange(i as int, errors@.len() as int);
        assert(rest.drop_first() =~= errors@.subrange(i + 1, errors@.len() as int));
        assert(rest[0] == errors@[i as int]);
        if !str_eq(errors[i].stage.as_str(), "runner") {
            return Some(&errors[i].message);
        }
        i = i + 1;
    }
    None
}

/// The probe's answer from its trace: the records when the feed answered some, or what the
/// fetch or the parse said. A test stream the runner kept is an error of the runner's own,
/// reported beside the answer and never in its place.
pub fn answer_of(trace: TraceSummary, markers: &FeedMarkers) -> (p: Probe)
    ensures
        match first_feed_error(trace.errors@) {
            None => if trace.events > 0 {
                p.records == Some(trace.events) && p.bytes == Some(trace.bytes) && p.sample == trace.sample
                    && p.skipped is None
            } else {
                skipped_with(p, "the feed answered nothing within the test's three seconds"@)
            },
            Some(e) => skipped_with(p, outcome(e, markers.fetch_failed@, markers.empty_body@)),
        },
{
    let reason: Option<String> = match feed_error(&trace.errors) {
        Some(e) => Some(outcome_of(e.as_str(), markers)),
        None => None,
    };
    match reason {
        Some(r) => Probe::skipped(r),
        None => {
            if trace.events > 0 {
                Probe { records: Some(trace.events), bytes: Some(trace.bytes), sample: trace.sample, skipped: None }
            } else {
                let m = chars_of("the feed answered nothing within the test's three seconds");
                Probe::skipped(string_of(m.as_slice()))
            }
        },
    }
}

/// Whether a probe ran and the feed failed it, as opposed to a probe that did not run at all:
/// every answer about the feed itself names the feed first.
pub fn feed_failed(probe: &Probe) -> (r: Option<&String>)
    ensures
        match probe.skipped {
            Some(s) => if starts_with(s@, "the feed "@) {
                r matches Some(x) && x@ == s@
            } else {
                r is None
            },
            None => r is None,
        },
{
    match &probe.skipped {
        Some(s) => {
            let c = chars_of(s.as_str());
            let p = chars_of("the feed ");
            if has_prefix(c.as_slice(), p.as_slice()) {
                Some(s)
            } else {
                None
            }
        },
        None => None,
    }
}

// ---------------------------------------------------------------------------------------
// One test per project
// ---------------------------------------------------------------------------------------

/// The pipeline tests in flight: the id each was minted and the project it belongs to.
pub struct RunningTests {
    pub entries: Vec<(String, String)>,
}

/// Test `id` is running for `project`.
pub open spec fn runs(entries: Seq<(String, String)>, id: Seq<char>, project: Seq<char>) -> bool {
    exists|i: int| 0 <= i < entries.len() && (#[trigger] entries[i]).0@ == id && entries[i].1@ == project
}

/// Some test is running for `project`.
pub open spec fn busy(entries: Seq<(String, String)>, project: Seq<char>) -> bool {
    exists|i: int| 0 <= i < entries.len() && (#[trigger] entries[i]).1@ == project
}

/// No two entries share an id, and no two share a project.
pub open spec fn slots_well_formed(entries: Seq<(String, String)>) -> bool {
    forall|i: int, j: int|
        0 <= i < j < entries.len() ==> (#[trigger] entries[i]).0@ != (#[trigger] entries[j]).0@
            && entries[i].1@ != entries[j].1@
}

impl RunningTests {
    pub open spec fn well_formed(&self) -> bool {
        slots_well_formed(self.entries@)
    }

    /// No test is running.
    pub fn new() -> (r: RunningTests)
        ensures
            r.well_formed(),
            forall|i: Seq<char>, p: Seq<char>| !runs(r.entries@, i, p),
    {
        RunningTests { entries: Vec::new() }
    }

    /// The project test `id` belongs to, when it is running: where a captured message goes.
    pub fn project_of(&self, id: &str) -> (r: Option<&String>)
        ensures
            match r {
                Some(p) => runs(self.entries@, id@, p@),
                None => forall|p: Seq<char>| !runs(self.entries@, id@, p),
            },
    {
        let want = chars_of(id);
        let mut i: usize = 0;
        while i < self.entries.len()
            invariant
                i <= self.entries@.len(),
                want@ == id@,
                forall|j: int| 0 <= j < i ==> (#[trigger] self.entries@[j]).0@ != id@,
            decreases self.entries.len() - i,
        {
            let k = chars_of(self.entries[i].0.as_str());
            if crate::text::seq_eq(k.as_slice(), want.as_slice()) {
                assert(self.entries@[i as int].0@ == id@);
                return Some(&self.entries[i].1);
            }
            i = i + 1;
        }
        None
    }

    /// The test `id` has ended, however it ended: its project's slot is free.
    pub fn free(&mut self, id: &str)
        requires
            old(self).well_formed(),
        ensures
            final(self).well_formed(),
            forall|i: Seq<char>, p: Seq<char>|
                #[trigger] runs(final(self).entries@, i, p) <==> (i != id@ && runs(old(self).entries@, i, p)),
    {
        let want = chars_of(id);
        let ghost old_e = self.entries@;
        let mut kept: Vec<(String, String)> = Vec::new();
        let ghost mut from: Seq<int> = Seq::empty();
        let mut i: usize = 0;
        while i < self.entries.len()
            invariant
                i <= self.entries@.len(),
                self.entries@ == old_e,
                slots_well_formed(old_e),
                want@ == id@,
                from.len() == kept@.len(),
                forall|j: int| 0 <= j < from.len() ==> 0 <= #[trigger] from[j] < i && old_e[from[j]].0@ != id@
                    && kept@[j].0@ == old_e[from[j]].0@ && kept@[j].1@ == old_e[from[j]].1@,
                forall|j: int, l: int| 0 <= j < l < from.len() ==> #[trigger] from[j] < #[trigger] from[l],
                forall|m: int| 0 <= m < i && (#[trigger] old_e[m]).0@ != id@ ==> exists|j: int|
                    0 <= j < from.len() && from[j] == m,
            decreases self.entries.len() - i,
        {
            let k = chars_of(self.entries[i].0.as_str());
            let ghost before = from;
            if !crate::text::seq_eq(k.as_slice(), want.as_slice()) {
                let e = (self.entries[i].0.clone(), self.entries[i].1.clone());
                kept.push(e);
                proof {
                    from = from.push(i as int);
                }
            }
            proof {
                assert forall|m: int| 0 <= m < i + 1 && (#[trigger] old_e[m]).0@ != id@ implies exists|j: int|
                    0 <= j < from.len() && from[j] == m by {
                    if m == i {
                        assert(from[from.len() - 1] == m);
                    } else {
                        let j = choose|j: int| 0 <= j < before.len() && before[j] == m;
                        assert(from[j] == m);
                    }
                }
            }
            i = i + 1;
        }
        self.entries = kept;
        proof {
            assert forall|a: int, b: int| 0 <= a < b < kept@.len() implies (#[trigger] kept@[a]).0@
                != (#[trigger] kept@[b]).0@ && kept@[a].1@ != kept@[b].1@ by {
                assert(from[a] < from[b]);
            }
            assert forall|x: Seq<char>, p: Seq<char>|
                #[trigger] runs(kept@, x, p) <==> (x != id@ && runs(old_e, x, p)) by {
                if runs(kept@, x, p) {
                    let j = choose|j: int| 0 <= j < kept@.len() && (#[trigger] kept@[j]).0@ == x && kept@[j].1@ == p;
                    assert(old_e[from[j]].0@ == x);
                }
                if x != id@ && runs(old_e, x, p) {
                    let m = choose|m: int| 0 <= m < old_e.len() && (#[trigger] old_e[m]).0@ == x && old_e[m].1@ == p;
                    let j = choose|j: int| 0 <= j < from.len() && from[j] == m;
                    assert(kept@[j].0@ == x && kept@[j].1@ == p);
                }
            }
        }
    }

    /// Claims the project's slot for test `id`: refused while another test of the project runs.
    pub fn take(&mut self, project: &str, id: &str) -> (r: Result<(), ApiError>)
        requires
            old(self).well_formed(),
        ensures
            final(self).well_formed(),
            busy(old(self).entries@, project@) ==> (r matches Err(ApiError::Conflict(m))
                && m@ == "a pipeline test is already running in '"@ + project@ + "'; wait for it"@
                && final(self).entries@ == old(self).entries@),
            !busy(old(self).entries@, project@) ==> (r is Ok && forall|i: Seq<char>, p: Seq<char>|
                #[trigger] runs(final(self).entries@, i, p) <==> ((i == id@ && p == project@) || (i
                != id@ && runs(old(self).entries@, i, p)))),
    {
        let want = chars_of(project);
        let mut k: usize = 0;
        while k < self.entries.len()
            invariant
                k <= self.entries@.len(),
                want@ == project@,
                self.entries@ == old(self).entries@,
                slots_well_formed(self.entries@),
                forall|j: int| 0 <= j < k ==> (#[trigger] self.entries@[j]).1@ != project@,
            decreases self.entries.len() - k,
        {
            let p = chars_of(self.entries[k].1.as_str());
            if crate::text::seq_eq(p.as_slice(), want.as_slice()) {
                assert(self.entries@[k as int].1@ == project@);
                let mut m: Vec<char> = chars_of("a pipeline test is already running in '");
                append_str(&mut m, project);
                append_str(&mut m, "'; wait for it");
                return Err(ApiError::Conflict(string_of(m.as_slice())));
            }
            k = k + 1;
        }
        let ghost old_e = self.entries@;
        self.free(id);
        let ghost freed = self.entries@;
        let i_s = chars_of(id);
        let entry = (string_of(i_s.as_slice()), string_of(want.as_slice()));
        self.entries.push(entry);
        proof {
            let e = self.entries@;
            assert(e.last().0@ == id@ && e.last().1@ == project@);
            assert forall|a: int| 0 <= a < freed.len() implies (#[trigger] freed[a]).1@ != project@ && freed[a].0@ != id@ by {
                assert(runs(freed, freed[a].0@, freed[a].1@));
                assert(runs(old_e, freed[a].0@, freed[a].1@));
                let m = choose|m: int| 0 <= m < old_e.len() && (#[trigger] old_e[m]).0@ == freed[a].0@ && old_e[m].1@ == freed[a].1@;
            }
            assert forall|a: int, b: int| 0 <= a < b < e.len() implies (#[trigger] e[a]).0@ != (#[trigger] e[b]).0@
                && e[a].1@ != e[b].1@ by {
                if b == e.len() - 1 {
                    assert(e[a] == freed[a]);
                } else {
                    assert(e[a] == freed[a] && e[b] == freed[b]);
                }
            }
            assert forall|x: Seq<char>, p: Seq<char>| #[trigger] runs(e, x, p) <==> ((x == id@ && p == project@) || (x
                != id@ && runs(old_e, x, p))) by {
                if runs(e, x, p) {
                    let j = choose|j: int| 0 <= j < e.len() && (#[trigger] e[j]).0@ == x && e[j].1@ == p;
                    if j < freed.len() {
                        assert(e[j] == freed[j]);
                        assert(runs(freed, x, p));
                    }
                }
                if x == id@ && p == project@ {
                    assert(e[e.len() - 1].0@ == x);
                }
                if x != id@ && runs(old_e, x, p) {
                    assert(runs(freed, x, p));
                    let j = choose|j: int| 0 <= j < freed.len() && (#[trigger] freed[j]).0@ == x && freed[j].1@ == p;
                    assert(e[j] == freed[j]);
                }
            }
        }
        Ok(())
    }
}

/// At most one test runs per project: two tests running for one project are the same test.
/// Every operation on the running tests keeps this (their contracts keep `well_formed`).
pub proof fn one_test_per_project(t: RunningTests, a: Seq<char>, b: Seq<char>, project: Seq<char>)
    requires
        t.well_formed(),
        runs(t.entries@, a, project),
        runs(t.entries@, b, project),
    ensures
        a == b,
{
    let i = choose|i: int| 0 <= i < t.entries@.len() && (#[trigger] t.entries@[i]).0@ == a && t.entries@[i].1@ == project;
    let j = choose|j: int| 0 <= j < t.entries@.len() && (#[trigger] t.entries@[j]).0@ == b && t.entries@[j].1@ == project;
    if i < j {
        assert(t.entries@[i].1@ != t.entries@[j].1@);
    } else if j < i {
        assert(t.entries@[j].1@ != t.entries@[i].1@);
    }
}

} // verus!
