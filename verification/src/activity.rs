//! What is happening in a project: the filter a list or a live tail of its activity is read
//! through, and how a batch of collector records is answered.

use vstd::prelude::*;
use crate::error::ApiError;
use crate::json::{get, get_text, member, JsonValue};
use crate::json_edit::set_member;
use crate::projects::{u64_of_text, u64_text};
use crate::text::{decimal, decimal_of, slice_of, append_chars, append_str, chars_of, seq_eq, split, split_chars, str_eq, string_of, trim_chars, trimmed};

verus! {

/// The parameters the list and the stream share.
pub struct ActivityQuery {
    pub space: Option<String>,
    /// One or more kinds, comma-separated.
    pub kind: Option<String>,
    pub source: Option<String>,
    /// `info`, `warning` or `error`; a value includes everything above it.
    pub severity: Option<String>,
    /// RFC 3339 instant, the oldest event to return.
    pub since: Option<String>,
    /// One object the events belong to, as `{plural}/{name}`.
    pub object: Option<String>,
    pub limit: Option<i64>,
    pub cursor: Option<String>,
}

impl Default for ActivityQuery {
    fn default() -> (q: Self)
        ensures
            q.space is None && q.kind is None && q.source is None && q.severity is None,
            q.since is None && q.object is None && q.limit is None && q.cursor is None,
    {
        ActivityQuery {
            space: None,
            kind: None,
            source: None,
            severity: None,
            since: None,
            object: None,
            limit: None,
            cursor: None,
        }
    }
}

/// The page sizes of the activity store: the one a query without a limit gets, and the
/// largest one served.
pub struct PageLimits {
    pub default: i64,
    pub max: i64,
}

/// A query, checked: what the store filters the events by.
pub struct ActivityFilter {
    pub space: Option<String>,
    /// The kinds asked for, trimmed, the empty ones dropped.
    pub kinds: Vec<String>,
    pub source: Option<String>,
    pub severity: Option<String>,
    /// The oldest instant to return, as seconds and nanoseconds since the Unix epoch.
    pub since: Option<(i64, u32)>,
    pub object: Option<String>,
    pub limit: i64,
    /// The cursor's text, a cursor this Portal handed out.
    pub cursor: Option<String>,
}

/// A page of activity, newest first.
pub struct ActivityList {
    pub api_version: String,
    pub kind: String,
    /// The events, as the caller reads them.
    pub items: Vec<JsonValue>,
    pub next: Option<String>,
}

/// What the collector reads: how many records the Portal refused, and why the first was.
pub struct PartialSuccess {
    pub rejected_log_records: i64,
    pub error_message: String,
}

/// The answer to one batch of collector records.
pub struct ExportLogsServiceResponse {
    pub partial_success: Option<PartialSuccess>,
}

/// The instant an RFC 3339 text names, as seconds and nanoseconds since the Unix epoch, or
/// `None` when it names none.
pub uninterp spec fn rfc3339_instant(text: Seq<char>) -> Option<(i64, u32)>;

/// chrono's `DateTime::parse_from_rfc3339`, taken to UTC and read as the Unix timestamp and
/// its nanoseconds. The contract names the result and claims nothing more of it.
#[verifier::external_body]
fn parse_rfc3339(text: &str) -> (r: Option<(i64, u32)>)
    ensures
        r == rfc3339_instant(text@),
{
    match chrono::DateTime::parse_from_rfc3339(text) {
        Ok(t) => {
            let u = t.with_timezone(&chrono::Utc);
            Some((u.timestamp(), u.timestamp_subsec_nanos()))
        },
        Err(_) => None,
    }
}

/// The severities a query may name.
pub open spec fn is_severity(s: Seq<char>) -> bool {
    s == "info"@ || s == "warning"@ || s == "error"@
}

/// The trimmed pieces that are not empty, in order.
pub open spec fn kept_kinds(pieces: Seq<Seq<char>>) -> Seq<Seq<char>>
    decreases pieces.len(),
{
    if pieces.len() == 0 {
        Seq::empty()
    } else {
        let before = kept_kinds(pieces.drop_last());
        let t = trimmed(pieces.last());
        if t.len() > 0 {
            before.push(t)
        } else {
            before
        }
    }
}

/// The kinds a query asks for: its `kind` split at commas, each trimmed, the empty ones dropped.
pub open spec fn kinds_of(kind: Option<String>) -> Seq<Seq<char>> {
    match kind {
        Some(k) => kept_kinds(split(k@, ',')),
        None => Seq::empty(),
    }
}

/// `limit.unwrap_or(default).clamp(1, max)`.
pub open spec fn clamped_limit(limit: Option<i64>, limits: PageLimits) -> i64 {
    let l = match limit {
        Some(n) => n,
        None => limits.default,
    };
    if l < 1 {
        1
    } else if l > limits.max {
        limits.max
    } else {
        l
    }
}

pub open spec fn string_views(v: Seq<String>) -> Seq<Seq<char>> {
    v.map_values(|s: String| s@)
}

fn kinds(kind: &Option<String>) -> (out: Vec<String>)
    ensures
        string_views(out@) == kinds_of(*kind),
{
    let mut out: Vec<String> = Vec::new();
    match kind {
        None => {
            assert(string_views(out@) =~= Seq::<Seq<char>>::empty());
        },
        Some(k) => {
            let c = chars_of(k.as_str());
            let pieces = split_chars(c.as_slice(), ',');
            let ghost all = split(k@, ',');
            let mut i: usize = 0;
            while i < pieces.len()
                invariant
                    i <= pieces@.len(),
                    pieces@.len() == all.len(),
                    all == split(k@, ','),
                    forall|j: int| 0 <= j < pieces@.len() ==> #[trigger] pieces@[j]@ == all[j],
                    string_views(out@) == kept_kinds(all.take(i as int)),
                decreases pieces.len() - i,
            {
                assert(all.take(i + 1).drop_last() =~= all.take(i as int));
                assert(all.take(i + 1).last() == all[i as int]);
                let t = trim_chars(pieces[i].as_slice());
                if t.len() > 0 {
                    let ghost before = out@;
                    out.push(string_of(t.as_slice()));
                    assert(string_views(out@) =~= string_views(before).push(t@));
                }
                i = i + 1;
            }
            assert(all.take(pieces@.len() as int) =~= all);
        },
    }
    out
}

fn copy(s: &Option<String>) -> (r: Option<String>)
    ensures
        r == *s,
{
    match s {
        Some(x) => Some(x.clone()),
        None => None,
    }
}

impl ActivityQuery {
    /// The filter a query reads as. Refused, in this order: a `since` that is not an RFC 3339
    /// instant, a severity that is not `info`, `warning` or `error`, and a cursor this Portal
    /// did not hand out (`cursor_known` is whether the cursor, when there is one, decodes as
    /// one). The limit is the default when absent and is held between 1 and the largest page.
    pub fn into_filter(self, limits: PageLimits, cursor_known: bool) -> (r: Result<ActivityFilter, ApiError>)
        requires
            1 <= limits.max,
        ensures
            match self.since {
                Some(t) => rfc3339_instant(t@) is None ==> (r matches Err(ApiError::BadRequest(m))
                    && m@ == "'"@ + t@ + "' is not an RFC 3339 instant"@),
                None => true,
            },
            (self.since is None || rfc3339_instant(self.since->0@) is Some) ==> match self.severity {
                Some(s) => !is_severity(s@) ==> (r matches Err(ApiError::BadRequest(m))
                    && m@ == "'"@ + s@ + "' is not a severity: info, warning or error"@),
                None => true,
            },
            (self.since is None || rfc3339_instant(self.since->0@) is Some)
                && (self.severity is None || is_severity(self.severity->0@))
                && self.cursor is Some && !cursor_known ==> (r matches Err(ApiError::BadRequest(m))
                && m@ == "that cursor is not one this Portal handed out"@),
            (self.since is None || rfc3339_instant(self.since->0@) is Some)
                && (self.severity is None || is_severity(self.severity->0@))
                && (self.cursor is None || cursor_known) ==> (r matches Ok(f) && {
                &&& f.space == self.space
                &&& string_views(f.kinds@) == kinds_of(self.kind)
                &&& f.source == self.source
                &&& f.severity == self.severity
                &&& f.since == match self.since {
                    Some(t) => rfc3339_instant(t@),
                    None => None,
                }
                &&& f.object == self.object
                &&& f.limit == clamped_limit(self.limit, limits)
                &&& f.cursor == self.cursor
            }),
    {
        let since = match &self.since {
            Some(text) => match parse_rfc3339(text.as_str()) {
                Some(t) => Some(t),
                None => {
                    let mut m: Vec<char> = chars_of("'");
                    append_str(&mut m, text.as_str());
                    append_str(&mut m, "' is not an RFC 3339 instant");
                    return Err(ApiError::BadRequest(string_of(m.as_slice())));
                },
            },
            None => None,
        };
        if let Some(severity) = &self.severity {
            let known = str_eq(severity.as_str(), "info") || str_eq(severity.as_str(), "warning")
                || str_eq(severity.as_str(), "error");
            if !known {
                let mut m: Vec<char> = chars_of("'");
                append_str(&mut m, severity.as_str());
                append_str(&mut m, "' is not a severity: info, warning or error");
                return Err(ApiError::BadRequest(string_of(m.as_slice())));
            }
        }
        if self.cursor.is_some() && !cursor_known {
            let m = chars_of("that cursor is not one this Portal handed out");
            return Err(ApiError::BadRequest(string_of(m.as_slice())));
        }
        let l = match self.limit {
            Some(n) => n,
            None => limits.default,
        };
        let limit = if l < 1 {
            1
        } else if l > limits.max {
            limits.max
        } else {
            l
        };
        let kinds = kinds(&self.kind);
        Ok(ActivityFilter {
            space: self.space,
            kinds,
            source: self.source,
            severity: self.severity,
            since,
            object: self.object,
            limit,
            cursor: self.cursor,
        })
    }
}

// ---------------------------------------------------------------------------------------
// A batch of collector records
// ---------------------------------------------------------------------------------------

/// Why one record is refused, `None` when it is accepted. A record reads either as the event
/// of a project (`Ok` with the project's name) or as the reason it is no event (`Err`); an
/// event of a project this Portal does not serve is refused too.
pub open spec fn refusal(outcome: Result<String, String>, known: Seq<Seq<char>>) -> Option<Seq<char>> {
    match outcome {
        Ok(p) => if known.contains(p@) {
            None
        } else {
            Some("project '"@ + p@ + "' is not a project here"@)
        },
        Err(reason) => Some(reason@),
    }
}

/// The positions of the accepted records, in order.
pub open spec fn accepted_of(outcomes: Seq<Result<String, String>>, known: Seq<Seq<char>>) -> Seq<usize>
    decreases outcomes.len(),
{
    if outcomes.len() == 0 {
        Seq::empty()
    } else {
        let before = accepted_of(outcomes.drop_last(), known);
        if refusal(outcomes.last(), known) is None {
            before.push((outcomes.len() - 1) as usize)
        } else {
            before
        }
    }
}

/// How many records are refused.
pub open spec fn refused_count(outcomes: Seq<Result<String, String>>, known: Seq<Seq<char>>) -> nat
    decreases outcomes.len(),
{
    if outcomes.len() == 0 {
        0
    } else {
        refused_count(outcomes.drop_last(), known) + if refusal(outcomes.last(), known) is None {
            0nat
        } else {
            1nat
        }
    }
}

/// The message the collector reads: the reason of the first refusal whose reason is not empty.
pub open spec fn first_reason(outcomes: Seq<Result<String, String>>, known: Seq<Seq<char>>) -> Seq<char>
    decreases outcomes.len(),
{
    if outcomes.len() == 0 {
        Seq::empty()
    } else {
        let before = first_reason(outcomes.drop_last(), known);
        if before.len() > 0 {
            before
        } else {
            match refusal(outcomes.last(), known) {
                Some(r) => r,
                None => before,
            }
        }
    }
}

proof fn lemma_refused_bound(outcomes: Seq<Result<String, String>>, known: Seq<Seq<char>>)
    ensures
        refused_count(outcomes, known) <= outcomes.len(),
    decreases outcomes.len(),
{
    if outcomes.len() > 0 {
        lemma_refused_bound(outcomes.drop_last(), known);
    }
}

fn is_known(known: &Vec<String>, p: &String) -> (b: bool)
    ensures
        b == string_views(known@).contains(p@),
{
    let want = chars_of(p.as_str());
    let mut i: usize = 0;
    while i < known.len()
        invariant
            i <= known@.len(),
            want@ == p@,
            forall|j: int| 0 <= j < i ==> known@[j]@ != p@,
        decreases known.len() - i,
    {
        let k = chars_of(known[i].as_str());
        if seq_eq(k.as_slice(), want.as_slice()) {
            assert(string_views(known@)[i as int] == p@);
            return true;
        }
        i = i + 1;
    }
    assert forall|x: Seq<char>| string_views(known@).contains(x) implies x != p@ by {
        let j = choose|j: int| 0 <= j < string_views(known@).len() && string_views(known@)[j] == x;
        assert(known@[j]@ == x);
    }
    false
}

/// Which records of a batch are stored, and the answer the collector reads: one malformed
/// record must not cost the others, so each is accepted or refused on its own. `known` is the
/// projects this Portal serves.
pub fn triage(outcomes: &Vec<Result<String, String>>, known: &Vec<String>) -> (r: (Vec<usize>, ExportLogsServiceResponse))
    requires
        outcomes@.len() <= i64::MAX,
    ensures
        r.0@ == accepted_of(outcomes@, string_views(known@)),
        refused_count(outcomes@, string_views(known@)) == 0 ==> r.1.partial_success is None,
        refused_count(outcomes@, string_views(known@)) > 0 ==> (r.1.partial_success matches Some(p)
            && p.rejected_log_records == refused_count(outcomes@, string_views(known@))
            && p.error_message@ == first_reason(outcomes@, string_views(known@))),
{
    let ghost ks = string_views(known@);
    let mut accepted: Vec<usize> = Vec::new();
    let mut rejected: i64 = 0;
    let mut first: Vec<char> = Vec::new();
    let mut i: usize = 0;
    while i < outcomes.len()
        invariant
            i <= outcomes@.len(),
            outcomes@.len() <= i64::MAX,
            ks == string_views(known@),
            accepted@ == accepted_of(outcomes@.take(i as int), ks),
            rejected == refused_count(outcomes@.take(i as int), ks),
            first@ == first_reason(outcomes@.take(i as int), ks),
        decreases outcomes.len() - i,
    {
        let ghost seen = outcomes@.take(i + 1);
        assert(seen.drop_last() =~= outcomes@.take(i as int));
        assert(seen.last() == outcomes@[i as int]);
        proof {
            lemma_refused_bound(outcomes@.take(i as int), ks);
        }
        let reason: Option<Vec<char>> = match &outcomes[i] {
            Ok(p) => {
                if is_known(known, p) {
                    None
                } else {
                    let mut m: Vec<char> = chars_of("project '");
                    append_str(&mut m, p.as_str());
                    append_str(&mut m, "' is not a project here");
                    Some(m)
                }
            },
            Err(e) => Some(chars_of(e.as_str())),
        };
        match reason {
            None => {
                accepted.push(i);
            },
            Some(m) => {
                rejected = rejected + 1;
                if first.len() == 0 {
                    append_chars(&mut first, m.as_slice());
                }
            },
        }
        i = i + 1;
    }
    assert(outcomes@.take(outcomes@.len() as int) =~= outcomes@);
    let partial_success = if rejected > 0 {
        Some(PartialSuccess { rejected_log_records: rejected, error_message: string_of(first.as_slice()) })
    } else {
        None
    };
    (accepted, ExportLogsServiceResponse { partial_success })
}


// ---------------------------------------------------------------------------------------
// One log record as the event it carries
// ---------------------------------------------------------------------------------------

/// `str::parse::<i64>`: an optional sign, then one digit or more, within range.
pub open spec fn i64_of_text(s: Seq<char>) -> Option<int> {
    if s.len() > 0 && s[0] == '-' {
        match u64_of_text(s.drop_first()) {
            Some(v) => if v <= 0x8000_0000_0000_0000 {
                Some(-(v as int))
            } else {
                None
            },
            None => None,
        }
    } else {
        let d = if s.len() > 0 && s[0] == '+' {
            s.drop_first()
        } else {
            s
        };
        match u64_of_text(d) {
            Some(v) => if v <= 0x7fff_ffff_ffff_ffff {
                Some(v as int)
            } else {
                None
            },
            None => None,
        }
    }
}

pub fn i64_text(s: &str) -> (r: Option<i64>)
    ensures
        match r {
            Some(n) => i64_of_text(s@) == Some(n as int),
            None => i64_of_text(s@) is None,
        },
{
    let c = chars_of(s);
    if c.len() > 0 && c[0] == '-' {
        let rest = string_of(slice_of(c.as_slice(), 1, c.len()).as_slice());
        assert(rest@ =~= s@.drop_first());
        match u64_text(rest.as_str()) {
            Some(v) => if v <= 0x8000_0000_0000_0000 {
                let w = v as i128;
                Some((-w) as i64)
            } else {
                None
            },
            None => None,
        }
    } else {
        let d = if c.len() > 0 && c[0] == '+' {
            slice_of(c.as_slice(), 1, c.len())
        } else {
            slice_of(c.as_slice(), 0, c.len())
        };
        assert(c@.subrange(0, c@.len() as int) =~= c@);
        if c.len() > 0 && c[0] == '+' {
            assert(d@ =~= s@.drop_first());
        }
        let ds = string_of(d.as_slice());
        match u64_text(ds.as_str()) {
            Some(v) => if v <= 0x7fff_ffff_ffff_ffff {
                Some(v as i64)
            } else {
                None
            },
            None => None,
        }
    }
}

/// An integer as `serde_json` writes it.
pub open spec fn int_text(n: int) -> Seq<char> {
    if n < 0 {
        "-"@ + decimal((-n) as nat)
    } else {
        decimal(n as nat)
    }
}

fn int_value(n: i64) -> (v: JsonValue)
    ensures
        v matches JsonValue::Number(t) && t@ == int_text(n as int),
{
    if n < 0 {
        let w = -(n as i128);
        let mut m = chars_of("-");
        append_chars(&mut m, decimal_of(w as u64).as_slice());
        JsonValue::Number(string_of(m.as_slice()))
    } else {
        JsonValue::Number(string_of(decimal_of(n as u64).as_slice()))
    }
}

/// What an OTLP attribute value holds.
pub enum AttrView {
    Text(Seq<char>),
    Int(int),
    /// A `doubleValue`, as the number's text.
    Number(Seq<char>),
    Flag(bool),
}

/// A number's text read as an `i64`, as `Value::as_i64` reads it.
pub open spec fn as_i64(v: Option<JsonValue>) -> Option<int> {
    match v {
        Some(JsonValue::Number(t)) => i64_of_text(t@),
        _ => None,
    }
}

/// The value of an OTLP `AnyValue`: its `stringValue`, its `intValue` (a decimal text, or a
/// number), its `doubleValue`, its `boolValue`, in that order of preference. An `intValue`
/// text that is no `i64` gives nothing.
pub open spec fn attr_view(v: JsonValue) -> Option<AttrView> {
    match v {
        JsonValue::Object(m) => match member(m@, "stringValue"@) {
            Some(JsonValue::Str(t)) => Some(AttrView::Text(t@)),
            _ => match member(m@, "intValue"@) {
                Some(JsonValue::Str(t)) => match i64_of_text(t@) {
                    Some(n) => Some(AttrView::Int(n)),
                    None => None,
                },
                _ => if as_i64(member(m@, "intValue"@)) is Some {
                    Some(AttrView::Int(as_i64(member(m@, "intValue"@))->0))
                } else {
                    match member(m@, "doubleValue"@) {
                        Some(JsonValue::Number(t)) => Some(AttrView::Number(t@)),
                        _ => match member(m@, "boolValue"@) {
                            Some(JsonValue::Bool(b)) => Some(AttrView::Flag(b)),
                            _ => None,
                        },
                    }
                },
            },
        },
        _ => None,
    }
}

/// Whether a JSON value is what an attribute holds.
pub open spec fn holds_attr(j: JsonValue, a: AttrView) -> bool {
    match a {
        AttrView::Text(t) => j matches JsonValue::Str(s) && s@ == t,
        AttrView::Int(n) => j matches JsonValue::Number(s) && s@ == int_text(n),
        AttrView::Number(t) => j matches JsonValue::Number(s) && s@ == t,
        AttrView::Flag(b) => j == JsonValue::Bool(b),
    }
}

fn attribute_value(value: &JsonValue) -> (r: Option<JsonValue>)
    ensures
        match (r, attr_view(*value)) {
            (Some(j), Some(a)) => holds_attr(j, a),
            (None, None) => true,
            _ => false,
        },
{
    match value {
        JsonValue::Object(_) => {},
        _ => return None,
    }
    if let Some(t) = value.text_at("stringValue") {
        return Some(JsonValue::Str(t.clone()));
    }
    match value.get_member("intValue") {
        Some(JsonValue::Str(t)) => {
            return match i64_text(t.as_str()) {
                Some(n) => Some(int_value(n)),
                None => None,
            };
        },
        Some(JsonValue::Number(t)) => {
            if let Some(n) = i64_text(t.as_str()) {
                return Some(int_value(n));
            }
        },
        _ => {},
    }
    match value.get_member("doubleValue") {
        Some(JsonValue::Number(t)) => return Some(JsonValue::Number(t.clone())),
        _ => {},
    }
    match value.flag_at("boolValue") {
        Some(b) => Some(JsonValue::Bool(b)),
        None => None,
    }
}

/// The attributes of a record that have a key and a value, in order.
pub open spec fn record_attrs(items: Seq<JsonValue>) -> Seq<(Seq<char>, AttrView)>
    decreases items.len(),
{
    if items.len() == 0 {
        Seq::empty()
    } else {
        let before = record_attrs(items.drop_last());
        let it = items.last();
        match (get_text(it, "key"@), get(it, "value"@)) {
            (Some(k), Some(v)) => match attr_view(v) {
                Some(a) => before.push((k, a)),
                None => before,
            },
            _ => before,
        }
    }
}

pub open spec fn attributes_of(record: JsonValue) -> Seq<JsonValue> {
    match get(record, "attributes"@) {
        Some(JsonValue::Array(a)) => a@,
        _ => Seq::empty(),
    }
}

/// The value a key was last given.
pub open spec fn last_of(pairs: Seq<(Seq<char>, AttrView)>, k: Seq<char>) -> Option<AttrView>
    decreases pairs.len(),
{
    if pairs.len() == 0 {
        None
    } else if pairs.last().0 == k {
        Some(pairs.last().1)
    } else {
        last_of(pairs.drop_last(), k)
    }
}

/// A text attribute, when it is one and not empty.
pub open spec fn text_attr(pairs: Seq<(Seq<char>, AttrView)>, k: Seq<char>) -> Option<Seq<char>> {
    match last_of(pairs, k) {
        Some(AttrView::Text(s)) => if s.len() > 0 {
            Some(s)
        } else {
            None
        },
        _ => None,
    }
}

pub open spec fn or_empty(t: Option<Seq<char>>) -> Seq<char> {
    match t {
        Some(s) => s,
        None => Seq::empty(),
    }
}

/// The names the event vocabulary gives a field of its own; every other attribute is a detail.
pub open spec fn named_field(k: Seq<char>) -> bool {
    k == "project"@ || k == "space"@ || k == "kind"@ || k == "source"@ || k == "summary"@ || k == "severity"@
        || k == "correlationId"@
}

/// When a record happened, in nanoseconds since the epoch, as its `timeUnixNano` gives it (a
/// decimal text or a number).
pub open spec fn record_time(record: JsonValue) -> Option<int> {
    match get(record, "timeUnixNano"@) {
        Some(JsonValue::Str(t)) => i64_of_text(t@),
        Some(JsonValue::Number(t)) => i64_of_text(t@),
        _ => None,
    }
}

/// The summary of a record: its `summary` attribute, else the text of its body.
pub open spec fn summary_of(record: JsonValue, pairs: Seq<(Seq<char>, AttrView)>) -> Seq<char> {
    match text_attr(pairs, "summary"@) {
        Some(s) => s,
        None => match get(record, "body"@) {
            Some(b) => or_empty(get_text(b, "stringValue"@)),
            None => Seq::empty(),
        },
    }
}

/// An event of a project's activity, as a collector's log record carries it.
pub struct ActivityEvent {
    /// Nanoseconds since the epoch.
    pub time: i64,
    pub project: String,
    pub space: Option<String>,
    pub kind: String,
    pub source: String,
    pub summary: String,
    pub severity: String,
    pub correlation_id: Option<String>,
    /// Every attribute the vocabulary does not name, with its own type kept.
    pub details: Vec<(String, JsonValue)>,
}

pub open spec fn opt_text(s: Option<String>) -> Option<Seq<char>> {
    match s {
        Some(x) => Some(x@),
        None => None,
    }
}

/// The event one record carries: its instant (`now` when it gives none), the fields the
/// vocabulary names, and every other attribute as a detail.
pub open spec fn event_of_record(e: ActivityEvent, record: JsonValue, now: i64) -> bool {
    let pairs = record_attrs(attributes_of(record));
    &&& e.time as int == match record_time(record) {
        Some(t) => t,
        None => now as int,
    }
    &&& e.project@ == or_empty(text_attr(pairs, "project"@))
    &&& opt_text(e.space) == text_attr(pairs, "space"@)
    &&& e.kind@ == or_empty(text_attr(pairs, "kind"@))
    &&& e.source@ == or_empty(text_attr(pairs, "source"@))
    &&& e.summary@ == summary_of(record, pairs)
    &&& e.severity@ == match text_attr(pairs, "severity"@) {
        Some(s) => s,
        None => "info"@,
    }
    &&& opt_text(e.correlation_id) == text_attr(pairs, "correlationId"@)
    &&& forall|k: Seq<char>|
        #[trigger] member(e.details@, k) == None::<JsonValue> <==> (named_field(k) || last_of(pairs, k) is None)
    &&& forall|k: Seq<char>|
        !named_field(k) && last_of(pairs, k) is Some ==> (#[trigger] member(e.details@, k) matches Some(j)
            && holds_attr(j, last_of(pairs, k)->0))
}


fn named_text(named: &Vec<(String, JsonValue)>, k: &str, ghost_pairs: Ghost<Seq<(Seq<char>, AttrView)>>) -> (r: Option<String>)
    requires
        forall|q: Seq<char>|
            #![trigger member(named@, q)]
            match last_of(ghost_pairs@, q) {
                None => member(named@, q) is None,
                Some(a) => member(named@, q) matches Some(j) && holds_attr(j, a),
            },
    ensures
        opt_text(r) == text_attr(ghost_pairs@, k@),
{
    let kc = chars_of(k);
    match crate::json::lookup(named, kc.as_slice()) {
        Some(JsonValue::Str(s)) => {
            if chars_of(s.as_str()).len() > 0 {
                Some(s.clone())
            } else {
                None
            }
        },
        _ => None,
    }
}

/// One log record as the event it carries; `now` is when it arrived.
pub fn event_of(record: &JsonValue, now: i64) -> (e: ActivityEvent)
    ensures
        event_of_record(e, *record, now),
{
    let ghost items = attributes_of(*record);
    let empty: Vec<JsonValue> = Vec::new();
    let list: &Vec<JsonValue> = match record.get_member("attributes") {
        Some(JsonValue::Array(a)) => a,
        _ => &empty,
    };
    assert(list@ == items);
    let mut named: Vec<(String, JsonValue)> = Vec::new();
    let mut details: Vec<(String, JsonValue)> = Vec::new();
    let mut i: usize = 0;
    assert(items.take(0) =~= Seq::<JsonValue>::empty());
    while i < list.len()
        invariant
            i <= list@.len(),
            list@ == items,
            forall|q: Seq<char>|
                #![trigger member(named@, q)]
                match last_of(record_attrs(items.take(i as int)), q) {
                    None => member(named@, q) is None,
                    Some(a) => member(named@, q) matches Some(j) && holds_attr(j, a),
                },
            forall|q: Seq<char>|
                #![trigger member(details@, q)]
                match last_of(record_attrs(items.take(i as int)), q) {
                    None => member(details@, q) is None,
                    Some(a) => if named_field(q) {
                        member(details@, q) is None
                    } else {
                        member(details@, q) matches Some(j) && holds_attr(j, a)
                    },
                },
        decreases list.len() - i,
    {
        let it = &list[i];
        let ghost prev = record_attrs(items.take(i as int));
        assert(items.take(i + 1).drop_last() =~= items.take(i as int));
        assert(items.take(i + 1).last() == items[i as int]);
        let key = it.text_at("key");
        let value = match it.get_member("value") {
            Some(v) => attribute_value(v),
            None => None,
        };
        let second = match it.get_member("value") {
            Some(v) => attribute_value(v),
            None => None,
        };
        match (key, value) {
            (Some(k), Some(v)) => {
                let ghost a = attr_view(match get(*it, "value"@) {
                    Some(x) => x,
                    None => JsonValue::Null,
                })->0;
                let ghost next = prev.push((k@, a));
                assert(record_attrs(items.take(i + 1)) == next);
                let is_named = crate::text::str_eq(k.as_str(), "project") || crate::text::str_eq(k.as_str(), "space")
                    || crate::text::str_eq(k.as_str(), "kind") || crate::text::str_eq(k.as_str(), "source")
                    || crate::text::str_eq(k.as_str(), "summary") || crate::text::str_eq(k.as_str(), "severity")
                    || crate::text::str_eq(k.as_str(), "correlationId");
                if !is_named {
                    if let Some(w) = second {
                        set_member(&mut details, k.as_str(), w);
                    }
                }
                set_member(&mut named, k.as_str(), v);
                proof {
                    assert forall|q: Seq<char>| #[trigger] last_of(next, q) == (if q == k@ {
                        Some(a)
                    } else {
                        last_of(prev, q)
                    }) by {
                        assert(next.drop_last() =~= prev);
                    }
                }
            },
            _ => {
                assert(record_attrs(items.take(i + 1)) == prev);
            },
        }
        i = i + 1;
    }
    assert(items.take(items.len() as int) =~= items);
    let ghost pairs = record_attrs(items);
    let time = match record.get_member("timeUnixNano") {
        Some(JsonValue::Str(t)) => i64_text(t.as_str()),
        Some(JsonValue::Number(t)) => i64_text(t.as_str()),
        _ => None,
    };
    let time = match time {
        Some(t) => t,
        None => now,
    };
    let project = match named_text(&named, "project", Ghost(pairs)) {
        Some(s) => s,
        None => string_of(Vec::<char>::new().as_slice()),
    };
    let kind = match named_text(&named, "kind", Ghost(pairs)) {
        Some(s) => s,
        None => string_of(Vec::<char>::new().as_slice()),
    };
    let source = match named_text(&named, "source", Ghost(pairs)) {
        Some(s) => s,
        None => string_of(Vec::<char>::new().as_slice()),
    };
    let summary = match named_text(&named, "summary", Ghost(pairs)) {
        Some(s) => s,
        None => match record.get_member("body") {
            Some(b) => match b.text_at("stringValue") {
                Some(s) => s.clone(),
                None => string_of(Vec::<char>::new().as_slice()),
            },
            None => string_of(Vec::<char>::new().as_slice()),
        },
    };
    let severity = match named_text(&named, "severity", Ghost(pairs)) {
        Some(s) => s,
        None => string_of(chars_of("info").as_slice()),
    };
    ActivityEvent {
        time,
        project,
        space: named_text(&named, "space", Ghost(pairs)),
        kind,
        source,
        summary,
        severity,
        correlation_id: named_text(&named, "correlationId", Ghost(pairs)),
        details,
    }
}

} // verus!
