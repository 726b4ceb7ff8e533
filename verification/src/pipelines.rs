//! Reading a pipeline runner's Prometheus text: the parts of one sample line, one label of a
//! sample, and the counter family a metric name stands for.

use vstd::prelude::*;
use crate::text::{
    chars_of, ends_with, find_first, first_index, has_suffix, is_white, lemma_first_index,
    seq_eq, slice_of, split, split_chars, starts_with, str_eq, string_of, trim_chars, trimmed, white,
};

verus! {

// ---------------------------------------------------------------------------------------
// Families
// ---------------------------------------------------------------------------------------

/// The counters the view shows.
#[derive(Debug, Clone, Copy, PartialEq, Eq, Structural)]
pub enum Family {
    Received,
    Sent,
    Errors,
    BufferDepth,
    LatencyNs,
}

/// A metric name without the `_total` a counter may end with.
pub open spec fn without_total(name: Seq<char>) -> Seq<char> {
    if ends_with(name, "_total"@) {
        name.subrange(0, name.len() - "_total"@.len())
    } else {
        name
    }
}

/// The counter a metric name stands for, matched by suffix: a deployment may prefix the names
/// (`bento_`) or suffix a counter with `_total`.
pub open spec fn family_of(name: Seq<char>) -> Option<Family> {
    let n = without_total(name);
    if ends_with(n, "input_received"@) {
        Some(Family::Received)
    } else if ends_with(n, "output_sent"@) {
        Some(Family::Sent)
    } else if ends_with(n, "output_error"@) || ends_with(n, "processor_error"@) {
        Some(Family::Errors)
    } else if ends_with(n, "buffer_backlog"@) {
        Some(Family::BufferDepth)
    } else if ends_with(n, "output_latency_ns"@) {
        Some(Family::LatencyNs)
    } else {
        None
    }
}

pub fn family(name: &str) -> (r: Option<Family>)
    ensures
        r == family_of(name@),
{
    let c = chars_of(name);
    let total = chars_of("_total");
    let n = if has_suffix(c.as_slice(), total.as_slice()) {
        slice_of(c.as_slice(), 0, c.len() - total.len())
    } else {
        c
    };
    let s = n.as_slice();
    if has_suffix(s, chars_of("input_received").as_slice()) {
        Some(Family::Received)
    } else if has_suffix(s, chars_of("output_sent").as_slice()) {
        Some(Family::Sent)
    } else if has_suffix(s, chars_of("output_error").as_slice()) || has_suffix(
        s,
        chars_of("processor_error").as_slice(),
    ) {
        Some(Family::Errors)
    } else if has_suffix(s, chars_of("buffer_backlog").as_slice()) {
        Some(Family::BufferDepth)
    } else if has_suffix(s, chars_of("output_latency_ns").as_slice()) {
        Some(Family::LatencyNs)
    } else {
        None
    }
}

// ---------------------------------------------------------------------------------------
// Labels
// ---------------------------------------------------------------------------------------

/// `str::trim_matches('"')`: the string without the quotes at either end.
pub open spec fn unquoted(s: Seq<char>) -> Seq<char>
    decreases s.len(),
{
    if s.len() > 0 && s[0] == '"' {
        unquoted(s.drop_first())
    } else if s.len() > 0 && s.last() == '"' {
        unquoted(s.drop_last())
    } else {
        s
    }
}

fn unquote(s: &[char]) -> (out: Vec<char>)
    ensures
        out@ == unquoted(s@),
{
    let mut i: usize = 0;
    let mut j: usize = s.len();
    assert(s@.subrange(0, s@.len() as int) =~= s@);
    while i < j && (s[i] == '"' || s[j - 1] == '"')
        invariant
            i <= j <= s@.len(),
            unquoted(s@) == unquoted(s@.subrange(i as int, j as int)),
        decreases j - i,
    {
        let ghost t = s@.subrange(i as int, j as int);
        if s[i] == '"' {
            assert(t[0] == s@[i as int]);
            assert(t.drop_first() =~= s@.subrange(i + 1, j as int));
            i = i + 1;
        } else {
            assert(t.last() == s@[j - 1]);
            assert(t.drop_last() =~= s@.subrange(i as int, j - 1));
            j = j - 1;
        }
    }
    if i < j {
        assert(s@.subrange(i as int, j as int)[0] == s@[i as int]);
        assert(s@.subrange(i as int, j as int).last() == s@[j - 1]);
    }
    slice_of(s, i, j)
}

/// The value of one label in a sample's label list: the first `key=value` pair whose key,
/// trimmed, is `key`, its value trimmed and unquoted.
pub open spec fn label_of(pairs: Seq<Seq<char>>, key: Seq<char>) -> Option<Seq<char>>
    decreases pairs.len(),
{
    if pairs.len() == 0 {
        None
    } else {
        let pair = pairs[0];
        let k = first_index(pair, '=');
        if k >= 0 && trimmed(pair.subrange(0, k)) == key {
            Some(unquoted(trimmed(pair.subrange(k + 1, pair.len() as int))))
        } else {
            label_of(pairs.drop_first(), key)
        }
    }
}

/// Reads one label. The label values are stream names, metric paths and quantiles, so the
/// escaping rules of the exposition format never come up; a value with an escaped quote in it
/// would simply not match.
pub fn label(labels: &str, key: &str) -> (r: Option<String>)
    ensures
        match r {
            Some(v) => label_of(split(labels@, ','), key@) == Some(v@),
            None => label_of(split(labels@, ','), key@) is None,
        },
{
    let l = chars_of(labels);
    let pairs = split_chars(l.as_slice(), ',');
    let ghost sp = split(labels@, ',');
    let k = chars_of(key);
    let mut i: usize = 0;
    assert(sp.subrange(0, sp.len() as int) =~= sp);
    while i < pairs.len()
        invariant
            i <= pairs@.len() == sp.len(),
            sp == split(labels@, ','),
            forall|m: int| 0 <= m < pairs@.len() ==> #[trigger] pairs@[m]@ == sp[m],
            k@ == key@,
            label_of(sp, key@) == label_of(sp.subrange(i as int, sp.len() as int), key@),
        decreases pairs.len() - i,
    {
        let ghost rest = sp.subrange(i as int, sp.len() as int);
        assert(rest[0] == sp[i as int]);
        assert(pairs@[i as int]@ == sp[i as int]);
        assert(rest.drop_first() =~= sp.subrange(i + 1, sp.len() as int));
        let pair = pairs[i].as_slice();
        proof {
            lemma_first_index(pairs@[i as int]@, '=');
        }
        match find_first(pair, '=') {
            Some(e) => {
                let name = trim_chars(slice_of(pair, 0, e).as_slice());
                if seq_eq(name.as_slice(), k.as_slice()) {
                    let n = pair.len();
                    let after = e + 1;
                    let value = trim_chars(slice_of(pair, after, n).as_slice());
                    let v = unquote(value.as_slice());
                    assert(pair@ == rest[0]);
                    assert(e as int == first_index(rest[0], '='));
                    assert(name@ == trimmed(rest[0].subrange(0, e as int)));
                    assert(v@ == unquoted(trimmed(rest[0].subrange(e + 1, rest[0].len() as int))));
                    assert(label_of(rest, key@) == Some(v@));
                    return Some(string_of(v.as_slice()));
                }
            },
            None => {},
        }
        i = i + 1;
    }
    None
}

// ---------------------------------------------------------------------------------------
// Sample lines
// ---------------------------------------------------------------------------------------

/// `split_whitespace().next()`: the first run of characters that are not whitespace.
pub open spec fn first_word(s: Seq<char>) -> Option<Seq<char>>
    decreases s.len(),
{
    if s.len() == 0 {
        None
    } else if is_white(s[0]) {
        first_word(s.drop_first())
    } else {
        Some(word_at(s))
    }
}

/// The characters of `s` up to its first whitespace.
pub open spec fn word_at(s: Seq<char>) -> Seq<char>
    decreases s.len(),
{
    if s.len() == 0 || is_white(s[0]) {
        Seq::empty()
    } else {
        seq![s[0]] + word_at(s.drop_first())
    }
}

fn word(s: &[char]) -> (r: Option<Vec<char>>)
    ensures
        match r {
            Some(w) => first_word(s@) == Some(w@),
            None => first_word(s@) is None,
        },
{
    let mut i: usize = 0;
    assert(s@.subrange(0, s@.len() as int) =~= s@);
    while i < s.len() && white(s[i])
        invariant
            i <= s@.len(),
            first_word(s@) == first_word(s@.subrange(i as int, s@.len() as int)),
        decreases s.len() - i,
    {
        assert(s@.subrange(i as int, s@.len() as int).drop_first() =~= s@.subrange(i + 1, s@.len() as int));
        i = i + 1;
    }
    if i == s.len() {
        return None;
    }
    assert(s@.subrange(i as int, s@.len() as int)[0] == s@[i as int]);
    let mut j: usize = i;
    let ghost tail = s@.subrange(i as int, s@.len() as int);
    assert(first_word(s@) == Some(word_at(tail)));
    assert(s@.subrange(i as int, i as int) =~= Seq::<char>::empty());
    while j < s.len() && !white(s[j])
        invariant
            i <= j <= s@.len(),
            tail == s@.subrange(i as int, s@.len() as int),
            word_at(tail) == s@.subrange(i as int, j as int) + word_at(s@.subrange(j as int, s@.len() as int)),
        decreases s.len() - j,
    {
        let ghost rest = s@.subrange(j as int, s@.len() as int);
        assert(rest[0] == s@[j as int]);
        assert(rest.drop_first() =~= s@.subrange(j + 1, s@.len() as int));
        assert(s@.subrange(i as int, j + 1) =~= s@.subrange(i as int, j as int) + seq![s@[j as int]]);
        j = j + 1;
    }
    if j < s.len() {
        assert(s@.subrange(j as int, s@.len() as int)[0] == s@[j as int]);
    }
    assert(s@.subrange(i as int, j as int) + Seq::<char>::empty() =~= s@.subrange(i as int, j as int));
    Some(slice_of(s, i, j))
}

/// The name, the label list and the value's text of one sample line, or nothing for a blank
/// line, a comment, or a line without a value.
pub open spec fn sample_of(line: Seq<char>) -> Option<(Seq<char>, Seq<char>, Seq<char>)> {
    let l = trimmed(line);
    if l.len() == 0 || l[0] == '#' {
        None
    } else {
        let b = first_index(l, '{');
        let parts = if b >= 0 {
            let tail = l.subrange(b + 1, l.len() as int);
            let e = first_index(tail, '}');
            if e >= 0 {
                Some((l.subrange(0, b), tail.subrange(0, e), tail.subrange(e + 1, tail.len() as int)))
            } else {
                None
            }
        } else {
            let s = first_index(l, ' ');
            if s >= 0 {
                Some((l.subrange(0, s), Seq::<char>::empty(), l.subrange(s + 1, l.len() as int)))
            } else {
                None
            }
        };
        match parts {
            None => None,
            Some((name, labels, rest)) => match first_word(rest) {
                None => None,
                Some(value) => Some((trimmed(name), labels, value)),
            },
        }
    }
}

/// One sample line split into its name, its label list and the text of its value; reading the
/// value as a number is the caller's.
pub fn sample_parts(line: &str) -> (r: Option<(String, String, String)>)
    ensures
        match r {
            Some((n, l, v)) => sample_of(line@) == Some((n@, l@, v@)),
            None => sample_of(line@) is None,
        },
{
    let c = chars_of(line);
    let l = trim_chars(c.as_slice());
    if l.len() == 0 || l[0] == '#' {
        return None;
    }
    proof {
        lemma_first_index(l@, '{');
        lemma_first_index(l@, ' ');
    }
    let n = l.len();
    let (name, labels, rest) = match find_first(l.as_slice(), '{') {
        Some(b) => {
            let after = b + 1;
            let tail = slice_of(l.as_slice(), after, n);
            proof {
                lemma_first_index(tail@, '}');
            }
            match find_first(tail.as_slice(), '}') {
                Some(e) => {
                    let tn = tail.len();
                    let past = e + 1;
                    (slice_of(l.as_slice(), 0, b), slice_of(tail.as_slice(), 0, e), slice_of(tail.as_slice(), past, tn))
                },
                None => return None,
            }
        },
        None => match find_first(l.as_slice(), ' ') {
            Some(s) => {
                let after = s + 1;
                (slice_of(l.as_slice(), 0, s), Vec::new(), slice_of(l.as_slice(), after, n))
            },
            None => return None,
        },
    };
    let value = match word(rest.as_slice()) {
        Some(v) => v,
        None => return None,
    };
    let tn = trim_chars(name.as_slice());
    Some((string_of(tn.as_slice()), string_of(labels.as_slice()), string_of(value.as_slice())))
}

// ---------------------------------------------------------------------------------------
// The series of one stream
// ---------------------------------------------------------------------------------------

/// One sample of the stream asked for, of a family the view shows: the text of its value,
/// and whether it is the 0.99 quantile (the only latency series the view reads).
pub struct StreamSample {
    pub family: Family,
    pub value: String,
    pub p99: bool,
}

pub open spec fn sample_view(s: StreamSample) -> (Family, Seq<char>, bool) {
    (s.family, s.value@, s.p99)
}

/// What one line contributes to a stream's series: nothing for a comment, a blank line, a
/// line of another stream or a metric of no family.
pub open spec fn line_sample(line: Seq<char>, stream: Seq<char>) -> Option<(Family, Seq<char>, bool)> {
    match sample_of(line) {
        None => None,
        Some((name, labels, value)) => {
            let pairs = split(labels, ',');
            if label_of(pairs, "stream"@) == Some(stream) {
                match family_of(name) {
                    Some(f) => Some((f, value, label_of(pairs, "quantile"@) == Some("0.99"@))),
                    None => None,
                }
            } else {
                None
            }
        },
    }
}

/// The samples of these lines that belong to the stream, in order.
pub open spec fn samples_of(lines: Seq<Seq<char>>, stream: Seq<char>) -> Seq<(Family, Seq<char>, bool)>
    decreases lines.len(),
{
    if lines.len() == 0 {
        Seq::empty()
    } else {
        let before = samples_of(lines.drop_last(), stream);
        match line_sample(lines.last(), stream) {
            Some(x) => before.push(x),
            None => before,
        }
    }
}

/// Every sample of a scraped body that belongs to the stream, in the order of its lines: the
/// runner registers each stream under the pipeline's own name. Summing the counters and
/// taking the slowest latency is the caller's, on the numbers these texts read as.
pub fn stream_samples(body: &str, stream: &str) -> (out: Vec<StreamSample>)
    ensures
        out@.map_values(|s: StreamSample| sample_view(s)) == samples_of(split(body@, '\n'), stream@),
{
    let b = chars_of(body);
    let lines = split_chars(b.as_slice(), '\n');
    let ghost all = split(body@, '\n');
    let mut out: Vec<StreamSample> = Vec::new();
    let mut i: usize = 0;
    while i < lines.len()
        invariant
            i <= lines@.len(),
            lines@.len() == all.len(),
            all == split(body@, '\n'),
            forall|k: int| 0 <= k < lines@.len() ==> #[trigger] lines@[k]@ == all[k],
            out@.map_values(|s: StreamSample| sample_view(s)) == samples_of(all.take(i as int), stream@),
        decreases lines.len() - i,
    {
        let ghost seen = all.take(i as int);
        assert(all.take(i + 1).drop_last() =~= seen);
        assert(all.take(i + 1).last() == all[i as int]);
        let line = string_of(lines[i].as_slice());
        if let Some((name, labels, value)) = sample_parts(line.as_str()) {
            let on = label(labels.as_str(), "stream");
            let mine = match &on {
                Some(s) => str_eq(s.as_str(), stream),
                None => false,
            };
            if mine {
                if let Some(f) = family(name.as_str()) {
                    let q = label(labels.as_str(), "quantile");
                    let p99 = match &q {
                        Some(v) => {
                            proof {
                                reveal_strlit("0.99");
                            }
                            str_eq(v.as_str(), "0.99")
                        },
                        None => false,
                    };
                    let ghost before = out@;
                    out.push(StreamSample { family: f, value, p99 });
                    assert(out@.map_values(|s: StreamSample| sample_view(s)) =~= before.map_values(
                        |s: StreamSample| sample_view(s),
                    ).push((f, value@, p99)));
                }
            }
        }
        i = i + 1;
    }
    assert(all.take(lines@.len() as int) =~= all);
    out
}

} // verus!
