//! What renaming a resource of an imported bundle rewrites: every id of a renamed space moves
//! onto the new name, and every reference to a renamed resource names the new one.

use vstd::prelude::*;
use crate::json::{get, get_text, JsonValue};
use crate::json_edit::set_member;
use crate::text::{
    append_chars, chars_of, ends_with, has_prefix, has_suffix, join, join_chars, seq_eq, slice_of,
    split, split_chars, starts_with, str_eq, string_of,
};

verus! {

// ---------------------------------------------------------------------------------------
// Moving the ids of a renamed space
// ---------------------------------------------------------------------------------------

/// One id, or one anchored `idPattern`, moved from space `old` to `new`: the fifth segment of
/// `urn:ngsi-ld:{Type}:{orgDomain}:{space}:{localId}`. Anything else is left as it is.
pub open spec fn urn_space_moved(t: Seq<char>, old: Seq<char>, new: Seq<char>) -> Seq<char> {
    let pattern = starts_with(t, "^"@);
    let body = if pattern {
        t.subrange(1, t.len() as int)
    } else {
        t
    };
    let segments = split(body, ':');
    if !starts_with(body, "urn:ngsi-ld:"@) || segments.len() < 6 || segments[4] != old {
        t
    } else {
        let joined = join(segments.update(4, new), ":"@);
        if pattern {
            "^"@ + joined
        } else {
            joined
        }
    }
}

/// `after` is `before` with every id of space `old` moved onto `new`, member names and
/// everything that is not an id kept.
pub open spec fn space_moved(before: JsonValue, after: JsonValue, old: Seq<char>, new: Seq<char>) -> bool
    decreases before, 0int,
{
    match before {
        JsonValue::Object(a) => after matches JsonValue::Object(b) && b@.len() == a@.len()
            && members_moved(a@, b@, old, new, a@.len() as int),
        JsonValue::Array(a) => after matches JsonValue::Array(b) && b@.len() == a@.len()
            && items_moved(a@, b@, old, new, a@.len() as int),
        JsonValue::Str(t) => after matches JsonValue::Str(u) && u@ == urn_space_moved(t@, old, new),
        _ => after == before,
    }
}

pub open spec fn members_moved(
    a: Seq<(String, JsonValue)>,
    b: Seq<(String, JsonValue)>,
    old: Seq<char>,
    new: Seq<char>,
    n: int,
) -> bool
    decreases a, n,
{
    if n <= 0 || n > a.len() {
        true
    } else {
        &&& members_moved(a, b, old, new, n - 1)
        &&& b[n - 1].0@ == a[n - 1].0@
        &&& space_moved(a[n - 1].1, b[n - 1].1, old, new)
    }
}

pub open spec fn items_moved(a: Seq<JsonValue>, b: Seq<JsonValue>, old: Seq<char>, new: Seq<char>, n: int) -> bool
    decreases a, n,
{
    if n <= 0 || n > a.len() {
        true
    } else {
        items_moved(a, b, old, new, n - 1) && space_moved(a[n - 1], b[n - 1], old, new)
    }
}

proof fn lemma_members_moved_prefix(
    a: Seq<(String, JsonValue)>,
    b: Seq<(String, JsonValue)>,
    b2: Seq<(String, JsonValue)>,
    old: Seq<char>,
    new: Seq<char>,
    n: int,
)
    requires
        0 <= n <= b.len(),
        n <= b2.len(),
        forall|k: int| 0 <= k < n ==> b2[k] == b[k],
        members_moved(a, b, old, new, n),
    ensures
        members_moved(a, b2, old, new, n),
    decreases n,
{
    if n > 0 && n <= a.len() {
        lemma_members_moved_prefix(a, b, b2, old, new, n - 1);
    }
}

proof fn lemma_items_moved_prefix(
    a: Seq<JsonValue>,
    b: Seq<JsonValue>,
    b2: Seq<JsonValue>,
    old: Seq<char>,
    new: Seq<char>,
    n: int,
)
    requires
        0 <= n <= b.len(),
        n <= b2.len(),
        forall|k: int| 0 <= k < n ==> b2[k] == b[k],
        items_moved(a, b, old, new, n),
    ensures
        items_moved(a, b2, old, new, n),
    decreases n,
{
    if n > 0 && n <= a.len() {
        lemma_items_moved_prefix(a, b, b2, old, new, n - 1);
    }
}

/// One text, moved if it is an id of space `old`.
pub fn move_urn(t: &str, old: &str, new: &str) -> (r: String)
    ensures
        r@ == urn_space_moved(t@, old@, new@),
{
    let u = chars_of(t);
    let caret = chars_of("^");
    proof {
        reveal_strlit("^");
    }
    let pattern = has_prefix(u.as_slice(), caret.as_slice());
    let body = if pattern {
        slice_of(u.as_slice(), 1, u.len())
    } else {
        slice_of(u.as_slice(), 0, u.len())
    };
    assert(u@.subrange(0, u@.len() as int) =~= u@);
    let prefix = chars_of("urn:ngsi-ld:");
    if !has_prefix(body.as_slice(), prefix.as_slice()) {
        return string_of(u.as_slice());
    }
    let mut segments = split_chars(body.as_slice(), ':');
    let ghost sp = split(body@, ':');
    if segments.len() < 6 {
        return string_of(u.as_slice());
    }
    assert(segments@[4]@ == sp[4]);
    let o = chars_of(old);
    if !seq_eq(segments[4].as_slice(), o.as_slice()) {
        return string_of(u.as_slice());
    }
    let ghost before = segments@.map_values(|v: Vec<char>| v@);
    segments.remove(4);
    segments.insert(4, chars_of(new));
    assert(segments@.map_values(|v: Vec<char>| v@) =~= before.update(4, new@));
    assert(before =~= sp);
    let colon = chars_of(":");
    let joined = join_chars(&segments, colon.as_slice());
    if pattern {
        let mut out = caret.clone();
        append_chars(&mut out, joined.as_slice());
        string_of(out.as_slice())
    } else {
        string_of(joined.as_slice())
    }
}

fn moved_space(v: JsonValue, old: &str, new: &str) -> (r: JsonValue)
    ensures
        space_moved(v, r, old@, new@),
    decreases v,
{
    let ghost orig = v;
    match v {
        JsonValue::Object(members) => {
            let ghost a = members@;
            let mut rest = members;
            let mut out: Vec<(String, JsonValue)> = Vec::new();
            while rest.len() > 0
                invariant
                    orig == v,
                    orig == JsonValue::Object(members),
                    a == members@,
                    out@.len() + rest@.len() == a.len(),
                    rest@ == a.subrange(out@.len() as int, a.len() as int),
                    members_moved(a, out@, old@, new@, out@.len() as int),
                decreases rest@.len(),
            {
                let k = out.len();
                let (key, child) = rest.remove(0);
                proof {
                    assert(child == a[k as int].1);
                    assert(decreases_to!(orig => orig->Object_0));
                    assert(decreases_to!(orig->Object_0 => (orig->Object_0)@));
                    assert(decreases_to!((orig->Object_0)@ => (orig->Object_0)@[k as int]));
                    assert(decreases_to!((orig->Object_0)@[k as int] => (orig->Object_0)@[k as int].1));
                    assert(decreases_to!(orig => child));
                }
                let moved = moved_space(child, old, new);
                let ghost prev = out@;
                out.push((key, moved));
                proof {
                    lemma_members_moved_prefix(a, prev, out@, old@, new@, k as int);
                }
            }
            JsonValue::Object(out)
        },
        JsonValue::Array(items) => {
            let ghost a = items@;
            let mut rest = items;
            let mut out: Vec<JsonValue> = Vec::new();
            while rest.len() > 0
                invariant
                    orig == v,
                    orig == JsonValue::Array(items),
                    a == items@,
                    out@.len() + rest@.len() == a.len(),
                    rest@ == a.subrange(out@.len() as int, a.len() as int),
                    items_moved(a, out@, old@, new@, out@.len() as int),
                decreases rest@.len(),
            {
                let k = out.len();
                let child = rest.remove(0);
                proof {
                    assert(child == a[k as int]);
                    assert(decreases_to!(orig => orig->Array_0));
                    assert(decreases_to!(orig->Array_0 => (orig->Array_0)@));
                    assert(decreases_to!((orig->Array_0)@ => (orig->Array_0)@[k as int]));
                    assert(decreases_to!(orig => child));
                }
                let moved = moved_space(child, old, new);
                let ghost prev = out@;
                out.push(moved);
                proof {
                    lemma_items_moved_prefix(a, prev, out@, old@, new@, k as int);
                }
            }
            JsonValue::Array(out)
        },
        JsonValue::Str(t) => JsonValue::Str(move_urn(t.as_str(), old, new)),
        other => other,
    }
}

/// Moves every id of a renamed space onto its new name.
pub fn rewrite_space(value: &mut JsonValue, from: &str, to: &str)
    ensures
        space_moved(*old(value), *final(value), from@, to@),
{
    let mut taken = JsonValue::Null;
    std::mem::swap(&mut taken, value);
    *value = moved_space(taken, from, to);
}

// ---------------------------------------------------------------------------------------
// Pointing references at a renamed resource
// ---------------------------------------------------------------------------------------

/// A member that names the renamed resource as a bare name: a `contextSpaceRef` naming the
/// old ContextSpace.
pub open spec fn names_by_string(key: Seq<char>, c: JsonValue, kind: Seq<char>, old: Seq<char>) -> bool {
    &&& key == "contextSpaceRef"@ && kind == "ContextSpace"@
    &&& c matches JsonValue::Str(s) && s@ == old
}

/// A member that names the renamed resource as a typed reference `{ kind, name }`.
pub open spec fn names_by_type(key: Seq<char>, c: JsonValue, kind: Seq<char>, old: Seq<char>) -> bool {
    ends_with(key, "Ref"@) && get_text(c, "kind"@) == Some(kind) && get_text(c, "name"@) == Some(old)
}

/// `after` is `before` with every reference to the `kind` named `old` naming `new`.
pub open spec fn ref_renamed(
    before: JsonValue,
    after: JsonValue,
    kind: Seq<char>,
    old: Seq<char>,
    new: Seq<char>,
) -> bool
    decreases before, 0int,
{
    match before {
        JsonValue::Object(a) => after matches JsonValue::Object(b) && b@.len() == a@.len()
            && members_renamed(a@, b@, kind, old, new, a@.len() as int),
        JsonValue::Array(a) => after matches JsonValue::Array(b) && b@.len() == a@.len()
            && items_renamed(a@, b@, kind, old, new, a@.len() as int),
        _ => after == before,
    }
}

/// The typed reference `c`, naming `new` instead, everything else of it kept.
pub open spec fn renamed_to(c: JsonValue, d: JsonValue, new: Seq<char>) -> bool {
    c matches JsonValue::Object(cm) && d matches JsonValue::Object(dm) && get_text(d, "name"@) == Some(new)
        && forall|k: Seq<char>| k != "name"@ ==> #[trigger] crate::json::member(dm@, k) == crate::json::member(cm@, k)
}

pub open spec fn members_renamed(
    a: Seq<(String, JsonValue)>,
    b: Seq<(String, JsonValue)>,
    kind: Seq<char>,
    old: Seq<char>,
    new: Seq<char>,
    n: int,
) -> bool
    decreases a, n,
{
    if n <= 0 || n > a.len() {
        true
    } else {
        let key = a[n - 1].0@;
        let c = a[n - 1].1;
        let d = b[n - 1].1;
        &&& members_renamed(a, b, kind, old, new, n - 1)
        &&& b[n - 1].0@ == key
        &&& if names_by_string(key, c, kind, old) {
            d matches JsonValue::Str(x) && x@ == new
        } else if names_by_type(key, c, kind, old) {
            renamed_to(c, d, new)
        } else {
            ref_renamed(c, d, kind, old, new)
        }
    }
}

pub open spec fn items_renamed(
    a: Seq<JsonValue>,
    b: Seq<JsonValue>,
    kind: Seq<char>,
    old: Seq<char>,
    new: Seq<char>,
    n: int,
) -> bool
    decreases a, n,
{
    if n <= 0 || n > a.len() {
        true
    } else {
        items_renamed(a, b, kind, old, new, n - 1) && ref_renamed(a[n - 1], b[n - 1], kind, old, new)
    }
}

proof fn lemma_members_renamed_prefix(
    a: Seq<(String, JsonValue)>,
    b: Seq<(String, JsonValue)>,
    b2: Seq<(String, JsonValue)>,
    kind: Seq<char>,
    old: Seq<char>,
    new: Seq<char>,
    n: int,
)
    requires
        0 <= n <= b.len(),
        n <= b2.len(),
        forall|k: int| 0 <= k < n ==> b2[k] == b[k],
        members_renamed(a, b, kind, old, new, n),
    ensures
        members_renamed(a, b2, kind, old, new, n),
    decreases n,
{
    if n > 0 && n <= a.len() {
        lemma_members_renamed_prefix(a, b, b2, kind, old, new, n - 1);
    }
}

proof fn lemma_items_renamed_prefix(
    a: Seq<JsonValue>,
    b: Seq<JsonValue>,
    b2: Seq<JsonValue>,
    kind: Seq<char>,
    old: Seq<char>,
    new: Seq<char>,
    n: int,
)
    requires
        0 <= n <= b.len(),
        n <= b2.len(),
        forall|k: int| 0 <= k < n ==> b2[k] == b[k],
        items_renamed(a, b, kind, old, new, n),
    ensures
        items_renamed(a, b2, kind, old, new, n),
    decreases n,
{
    if n > 0 && n <= a.len() {
        lemma_items_renamed_prefix(a, b, b2, kind, old, new, n - 1);
    }
}

fn renamed_member(key: &String, child: JsonValue, kind: &str, old: &str, new: &str) -> (d: JsonValue)
    ensures
        if names_by_string(key@, child, kind@, old@) {
            d matches JsonValue::Str(x) && x@ == new@
        } else if names_by_type(key@, child, kind@, old@) {
            renamed_to(child, d, new@)
        } else {
            ref_renamed(child, d, kind@, old@, new@)
        },
    decreases child, 1int,
{
    let by_string = str_eq(key.as_str(), "contextSpaceRef") && str_eq(kind, "ContextSpace") && match &child {
        JsonValue::Str(s) => str_eq(s.as_str(), old),
        _ => false,
    };
    if by_string {
        let c = chars_of(new);
        return JsonValue::Str(string_of(c.as_slice()));
    }
    let k = chars_of(key.as_str());
    let suffix = chars_of("Ref");
    let by_type = has_suffix(k.as_slice(), suffix.as_slice()) && match child.text_at("kind") {
        Some(x) => str_eq(x.as_str(), kind),
        None => false,
    } && match child.text_at("name") {
        Some(x) => str_eq(x.as_str(), old),
        None => false,
    };
    if by_type {
        match child {
            JsonValue::Object(mut m) => {
                let c = chars_of(new);
                let n = string_of(c.as_slice());
                let ghost n_g = n;
                set_member(&mut m, "name", JsonValue::Str(n));
                assert(crate::json::member(m@, "name"@) == Some(JsonValue::Str(n_g)));
                return JsonValue::Object(m);
            },
            other => {
                proof {
                    assert(false);
                }
                return other;
            },
        }
    }
    renamed_refs(child, kind, old, new)
}

fn renamed_refs(v: JsonValue, kind: &str, old: &str, new: &str) -> (r: JsonValue)
    ensures
        ref_renamed(v, r, kind@, old@, new@),
    decreases v, 0int,
{
    let ghost orig = v;
    match v {
        JsonValue::Object(members) => {
            let ghost a = members@;
            let mut rest = members;
            let mut out: Vec<(String, JsonValue)> = Vec::new();
            while rest.len() > 0
                invariant
                    orig == v,
                    orig == JsonValue::Object(members),
                    a == members@,
                    out@.len() + rest@.len() == a.len(),
                    rest@ == a.subrange(out@.len() as int, a.len() as int),
                    members_renamed(a, out@, kind@, old@, new@, out@.len() as int),
                decreases rest@.len(),
            {
                let k = out.len();
                let (key, child) = rest.remove(0);
                proof {
                    assert(child == a[k as int].1);
                    assert(decreases_to!(orig => orig->Object_0));
                    assert(decreases_to!(orig->Object_0 => (orig->Object_0)@));
                    assert(decreases_to!((orig->Object_0)@ => (orig->Object_0)@[k as int]));
                    assert(decreases_to!((orig->Object_0)@[k as int] => (orig->Object_0)@[k as int].1));
                    assert(decreases_to!(orig => child));
                }
                let d = renamed_member(&key, child, kind, old, new);
                let ghost prev = out@;
                out.push((key, d));
                proof {
                    lemma_members_renamed_prefix(a, prev, out@, kind@, old@, new@, k as int);
                }
            }
            JsonValue::Object(out)
        },
        JsonValue::Array(items) => {
            let ghost a = items@;
            let mut rest = items;
            let mut out: Vec<JsonValue> = Vec::new();
            while rest.len() > 0
                invariant
                    orig == v,
                    orig == JsonValue::Array(items),
                    a == items@,
                    out@.len() + rest@.len() == a.len(),
                    rest@ == a.subrange(out@.len() as int, a.len() as int),
                    items_renamed(a, out@, kind@, old@, new@, out@.len() as int),
                decreases rest@.len(),
            {
                let k = out.len();
                let child = rest.remove(0);
                proof {
                    assert(child == a[k as int]);
                    assert(decreases_to!(orig => orig->Array_0));
                    assert(decreases_to!(orig->Array_0 => (orig->Array_0)@));
                    assert(decreases_to!((orig->Array_0)@ => (orig->Array_0)@[k as int]));
                    assert(decreases_to!(orig => child));
                }
                let d = renamed_refs(child, kind, old, new);
                let ghost prev = out@;
                out.push(d);
                proof {
                    lemma_items_renamed_prefix(a, prev, out@, kind@, old@, new@, k as int);
                }
            }
            JsonValue::Array(out)
        },
        other => other,
    }
}

/// Rewrites every reference to the `kind` named `from` so it names `to`.
pub fn rewrite_reference(value: &mut JsonValue, kind: &str, from: &str, to: &str)
    ensures
        ref_renamed(*old(value), *final(value), kind@, from@, to@),
{
    let mut taken = JsonValue::Null;
    std::mem::swap(&mut taken, value);
    *value = renamed_refs(taken, kind, from, to);
}

} // verus!
