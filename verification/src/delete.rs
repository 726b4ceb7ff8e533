//! Deleting a resource: which resources still reference it, what the refusal says when they
//! do, and which files beside the manifest go with it.

use vstd::prelude::*;
use crate::json::{get, get_text, views, JsonValue};
use crate::mutate::folder_of;
use crate::resource::Envelope;
use crate::text::{
    append_chars, append_str, chars_of, decimal_of, decimal, ends_with, find_last, has_prefix,
    has_suffix, join, lemma_last_index, lex_lt, less_than, slice_of, starts_with, str_eq,
    string_less, string_of, last_index, seq_eq,
};

verus! {

// ---------------------------------------------------------------------------------------
// References
// ---------------------------------------------------------------------------------------

/// Whether an object is a typed reference `{kind, name, namespace?}` to the target: the
/// namespace, when absent, is the referrer's own.
pub open spec fn refers_here(
    v: JsonValue,
    referrer_ns: Seq<char>,
    target_ns: Seq<char>,
    kind: Seq<char>,
    name: Seq<char>,
) -> bool {
    &&& get_text(v, "kind"@) == Some(kind)
    &&& get_text(v, "name"@) == Some(name)
    &&& match get_text(v, "namespace"@) {
        Some(ns) => ns == target_ns,
        None => referrer_ns == target_ns,
    }
}

/// Whether a JSON value holds, at any depth, a typed reference to the target.
pub open spec fn typed_ref(
    v: JsonValue,
    referrer_ns: Seq<char>,
    target_ns: Seq<char>,
    kind: Seq<char>,
    name: Seq<char>,
) -> bool
    decreases v, 0int,
{
    match v {
        JsonValue::Object(m) => refers_here(v, referrer_ns, target_ns, kind, name) || members_ref(
            m@,
            referrer_ns,
            target_ns,
            kind,
            name,
            m@.len() as int,
        ),
        JsonValue::Array(a) => items_ref(a@, referrer_ns, target_ns, kind, name, a@.len() as int),
        _ => false,
    }
}

pub open spec fn members_ref(
    m: Seq<(String, JsonValue)>,
    referrer_ns: Seq<char>,
    target_ns: Seq<char>,
    kind: Seq<char>,
    name: Seq<char>,
    n: int,
) -> bool
    decreases m, n,
{
    if n <= 0 || n > m.len() {
        false
    } else {
        members_ref(m, referrer_ns, target_ns, kind, name, n - 1) || typed_ref(
            m[n - 1].1,
            referrer_ns,
            target_ns,
            kind,
            name,
        )
    }
}

pub open spec fn items_ref(
    a: Seq<JsonValue>,
    referrer_ns: Seq<char>,
    target_ns: Seq<char>,
    kind: Seq<char>,
    name: Seq<char>,
    n: int,
) -> bool
    decreases a, n,
{
    if n <= 0 || n > a.len() {
        false
    } else {
        items_ref(a, referrer_ns, target_ns, kind, name, n - 1) || typed_ref(
            a[n - 1],
            referrer_ns,
            target_ns,
            kind,
            name,
        )
    }
}


proof fn lemma_members_ref_grows(
    m: Seq<(String, JsonValue)>,
    referrer_ns: Seq<char>,
    target_ns: Seq<char>,
    kind: Seq<char>,
    name: Seq<char>,
    a: int,
    b: int,
)
    requires
        0 <= a <= b <= m.len(),
        members_ref(m, referrer_ns, target_ns, kind, name, a),
    ensures
        members_ref(m, referrer_ns, target_ns, kind, name, b),
    decreases b - a,
{
    if a < b {
        lemma_members_ref_grows(m, referrer_ns, target_ns, kind, name, a, b - 1);
    }
}

proof fn lemma_items_ref_grows(
    s: Seq<JsonValue>,
    referrer_ns: Seq<char>,
    target_ns: Seq<char>,
    kind: Seq<char>,
    name: Seq<char>,
    a: int,
    b: int,
)
    requires
        0 <= a <= b <= s.len(),
        items_ref(s, referrer_ns, target_ns, kind, name, a),
    ensures
        items_ref(s, referrer_ns, target_ns, kind, name, b),
    decreases b - a,
{
    if a < b {
        lemma_items_ref_grows(s, referrer_ns, target_ns, kind, name, a, b - 1);
    }
}

proof fn lemma_member_names_file_grows(m: Seq<(String, JsonValue)>, file: Seq<char>, a: int, b: int)
    requires
        0 <= a <= b <= m.len(),
        member_names_file(m, file, a),
    ensures
        member_names_file(m, file, b),
    decreases b - a,
{
    if a < b {
        lemma_member_names_file_grows(m, file, a, b - 1);
    }
}

proof fn lemma_item_names_file_grows(s: Seq<JsonValue>, file: Seq<char>, a: int, b: int)
    requires
        0 <= a <= b <= s.len(),
        item_names_file(s, file, a),
    ensures
        item_names_file(s, file, b),
    decreases b - a,
{
    if a < b {
        lemma_item_names_file_grows(s, file, a, b - 1);
    }
}

fn text_is(v: &JsonValue, key: &str, want: &str) -> (b: bool)
    ensures
        b == (get_text(*v, key@) == Some(want@)),
{
    match v.text_at(key) {
        Some(t) => str_eq(t.as_str(), want),
        None => false,
    }
}

/// Traverses a JSON value to detect typed references `{kind, name, namespace?}`.
pub fn has_typed_ref(
    val: &JsonValue,
    referrer_ns: &str,
    target_ns: &str,
    target_kind: &str,
    target_name: &str,
) -> (b: bool)
    ensures
        b == typed_ref(*val, referrer_ns@, target_ns@, target_kind@, target_name@),
    decreases val,
{
    match val {
        JsonValue::Object(map) => {
            if text_is(val, "kind", target_kind) && text_is(val, "name", target_name) {
                let same = match val.text_at("namespace") {
                    Some(ns) => str_eq(ns.as_str(), target_ns),
                    None => str_eq(referrer_ns, target_ns),
                };
                if same {
                    return true;
                }
            }
            let mut i: usize = 0;
            while i < map.len()
                invariant
                    i <= map@.len(),
                    *val == JsonValue::Object(*map),
                    !members_ref(map@, referrer_ns@, target_ns@, target_kind@, target_name@, i as int),
                decreases map.len() - i,
            {
                assert(decreases_to!(*val => (*val)->Object_0));
                assert(decreases_to!(*map => map@));
                assert(decreases_to!(map@ => map@[i as int]));
                assert(decreases_to!(map@[i as int] => map@[i as int].1));
                if has_typed_ref(&map[i].1, referrer_ns, target_ns, target_kind, target_name) {
                    assert(members_ref(map@, referrer_ns@, target_ns@, target_kind@, target_name@, i + 1));
                    proof {
                        lemma_members_ref_grows(map@, referrer_ns@, target_ns@, target_kind@, target_name@, i + 1, map@.len() as int);
                    }
                    return true;
                }
                i = i + 1;
            }
            false
        },
        JsonValue::Array(arr) => {
            let mut i: usize = 0;
            while i < arr.len()
                invariant
                    i <= arr@.len(),
                    *val == JsonValue::Array(*arr),
                    !items_ref(arr@, referrer_ns@, target_ns@, target_kind@, target_name@, i as int),
                decreases arr.len() - i,
            {
                assert(decreases_to!(*val => (*val)->Array_0));
                assert(decreases_to!(*arr => arr@));
                assert(decreases_to!(arr@ => arr@[i as int]));
                if has_typed_ref(&arr[i], referrer_ns, target_ns, target_kind, target_name) {
                    assert(items_ref(arr@, referrer_ns@, target_ns@, target_kind@, target_name@, i + 1));
                    proof {
                        lemma_items_ref_grows(arr@, referrer_ns@, target_ns@, target_kind@, target_name@, i + 1, arr@.len() as int);
                    }
                    return true;
                }
                i = i + 1;
            }
            false
        },
        _ => false,
    }
}

/// A resource that still references the one being deleted.
#[derive(Debug, Clone)]
pub struct Reference {
    pub kind: String,
    pub name: String,
}

pub open spec fn ref_view(r: Reference) -> (Seq<char>, Seq<char>) {
    (r.kind@, r.name@)
}

pub open spec fn ref_views(v: Seq<Reference>) -> Seq<(Seq<char>, Seq<char>)> {
    v.map_values(|r: Reference| ref_view(r))
}

/// `(kind, name)` before another, as tuples of strings order.
pub open spec fn pair_lt(a: (Seq<char>, Seq<char>), b: (Seq<char>, Seq<char>)) -> bool {
    lex_lt(a.0, b.0) || (a.0 == b.0 && lex_lt(a.1, b.1))
}

/// Where `e` goes among sorted references: after every one that is not above it.
pub open spec fn pair_slot(s: Seq<(Seq<char>, Seq<char>)>, e: (Seq<char>, Seq<char>), k: int) -> int
    decreases s.len() - k,
{
    if k >= s.len() || k < 0 {
        s.len() as int
    } else if pair_lt(e, s[k]) {
        k
    } else {
        pair_slot(s, e, k + 1)
    }
}

/// A stable sort by kind, then name.
pub open spec fn by_kind_name(s: Seq<(Seq<char>, Seq<char>)>) -> Seq<(Seq<char>, Seq<char>)>
    decreases s.len(),
{
    if s.len() == 0 {
        Seq::empty()
    } else {
        let sorted = by_kind_name(s.drop_last());
        sorted.insert(pair_slot(sorted, s.last(), 0), s.last())
    }
}

proof fn lemma_pair_slot(s: Seq<(Seq<char>, Seq<char>)>, e: (Seq<char>, Seq<char>), k: int)
    requires
        0 <= k <= s.len(),
    ensures
        k <= pair_slot(s, e, k) <= s.len(),
    decreases s.len() - k,
{
    if k < s.len() && !pair_lt(e, s[k]) {
        lemma_pair_slot(s, e, k + 1);
    }
}

fn less_pair(a: &Reference, b: &Reference) -> (r: bool)
    ensures
        r == pair_lt(ref_view(*a), ref_view(*b)),
{
    if string_less(&a.kind, &b.kind) {
        return true;
    }
    let ak = chars_of(a.kind.as_str());
    let bk = chars_of(b.kind.as_str());
    seq_eq(ak.as_slice(), bk.as_slice()) && string_less(&a.name, &b.name)
}

fn slot_of(out: &Vec<Reference>, e: &Reference) -> (p: usize)
    ensures
        p == pair_slot(ref_views(out@), ref_view(*e), 0),
{
    let ghost s = ref_views(out@);
    let mut p: usize = 0;
    while p < out.len()
        invariant
            p <= out@.len(),
            s == ref_views(out@),
            pair_slot(s, ref_view(*e), 0) == pair_slot(s, ref_view(*e), p as int),
        decreases out.len() - p,
    {
        if less_pair(e, &out[p]) {
            return p;
        }
        p = p + 1;
    }
    p
}

/// The references sorted by kind, then name.
pub fn sort_references(refs: Vec<Reference>) -> (out: Vec<Reference>)
    ensures
        ref_views(out@) == by_kind_name(ref_views(refs@)),
{
    let ghost all = ref_views(refs@);
    let n = refs.len();
    let mut rest = refs;
    let mut out: Vec<Reference> = Vec::new();
    let mut j: usize = 0;
    assert(ref_views(out@) =~= by_kind_name(all.subrange(0, 0)));
    assert(all.subrange(0, n as int) =~= all);
    while j < n
        invariant
            j <= n == all.len(),
            rest@.len() == n - j,
            ref_views(rest@) == all.subrange(j as int, n as int),
            ref_views(out@) == by_kind_name(all.subrange(0, j as int)),
        decreases n - j,
    {
        let ghost before = ref_views(out@);
        let ghost old_rest = rest@;
        assert(ref_views(old_rest)[0] == all[j as int]);
        let e = rest.remove(0);
        assert forall|q: int| 0 <= q < rest@.len() implies #[trigger] ref_views(rest@)[q] == all[j + 1 + q] by {
            assert(rest@[q] == old_rest[q + 1]);
            assert(ref_views(old_rest)[q + 1] == all.subrange(j as int, n as int)[q + 1]);
        }
        assert(ref_views(rest@) =~= all.subrange(j + 1, n as int));
        let p = slot_of(&out, &e);
        proof {
            lemma_pair_slot(before, ref_view(e), 0);
        }
        out.insert(p, e);
        assert(all.subrange(0, j + 1).drop_last() =~= all.subrange(0, j as int));
        assert(ref_views(out@) =~= before.insert(p as int, all[j as int]));
        j = j + 1;
    }
    out
}

/// Whether a candidate is the resource being deleted itself.
pub open spec fn is_victim(c: Envelope, project: Seq<char>, kind: Seq<char>, name: Seq<char>) -> bool {
    c.kind@ == kind && c.metadata.name@ == name && match c.metadata.namespace {
        Some(ns) => ns@ == project,
        None => project.len() == 0,
    }
}

/// The namespace a candidate lives in, empty when it declares none.
pub open spec fn ns_of(c: Envelope) -> Seq<char> {
    match c.metadata.namespace {
        Some(ns) => ns@,
        None => Seq::empty(),
    }
}

/// Whether a candidate blocks the deletion: another resource that references the target.
pub open spec fn blocks(c: Envelope, project: Seq<char>, kind: Seq<char>, name: Seq<char>) -> bool {
    !is_victim(c, project, kind, name) && typed_ref(c.spec, ns_of(c), project, kind, name)
}

/// Whether a blocking candidate lives in the project of the deletion.
pub open spec fn local(c: Envelope, project: Seq<char>) -> bool {
    match c.metadata.namespace {
        Some(ns) => ns@ == project,
        None => false,
    }
}

/// The blocking references of the project, as `(kind, name)` in the order they were found.
pub open spec fn local_blockers(cs: Seq<Envelope>, project: Seq<char>, kind: Seq<char>, name: Seq<char>) -> Seq<(Seq<char>, Seq<char>)>
    decreases cs.len(),
{
    if cs.len() == 0 {
        Seq::empty()
    } else {
        let rest = local_blockers(cs.drop_last(), project, kind, name);
        let c = cs.last();
        if blocks(c, project, kind, name) && local(c, project) {
            rest.push((c.kind@, c.metadata.name@))
        } else {
            rest
        }
    }
}

/// How many blocking references live in other projects.
pub open spec fn foreign_blockers(cs: Seq<Envelope>, project: Seq<char>, kind: Seq<char>, name: Seq<char>) -> nat
    decreases cs.len(),
{
    if cs.len() == 0 {
        0
    } else {
        foreign_blockers(cs.drop_last(), project, kind, name) + if blocks(cs.last(), project, kind, name)
            && !local(cs.last(), project) {
            1nat
        } else {
            0nat
        }
    }
}

fn same_opt(a: &Option<String>, b: &str) -> (r: bool)
    ensures
        r == match a {
            Some(x) => x@ == b@,
            None => b@.len() == 0,
        },
{
    match a {
        Some(x) => str_eq(x.as_str(), b),
        None => b.unicode_len() == 0,
    }
}

/// The resources that still reference the one being deleted: the project's own, sorted by kind
/// and name, and how many other projects' there are.
pub fn blocking_references(
    candidates: &Vec<Envelope>,
    project: &str,
    kind: &str,
    name: &str,
) -> (r: (Vec<Reference>, usize))
    requires
        candidates@.len() <= usize::MAX,
    ensures
        ref_views(r.0@) == by_kind_name(local_blockers(candidates@, project@, kind@, name@)),
        r.1 as nat == foreign_blockers(candidates@, project@, kind@, name@),
{
    let mut here: Vec<Reference> = Vec::new();
    let mut elsewhere: usize = 0;
    let mut i: usize = 0;
    assert(ref_views(here@) =~= local_blockers(candidates@.subrange(0, 0), project@, kind@, name@));
    while i < candidates.len()
        invariant
            i <= candidates@.len(),
            elsewhere <= i,
            ref_views(here@) == local_blockers(candidates@.subrange(0, i as int), project@, kind@, name@),
            elsewhere as nat == foreign_blockers(candidates@.subrange(0, i as int), project@, kind@, name@),
        decreases candidates.len() - i,
    {
        let c = &candidates[i];
        assert(candidates@.subrange(0, i + 1).drop_last() =~= candidates@.subrange(0, i as int));
        assert(candidates@.subrange(0, i + 1).last() == *c);
        let victim = str_eq(c.kind.as_str(), kind) && str_eq(c.metadata.name.as_str(), name)
            && same_opt(&c.metadata.namespace, project);
        let ns = match &c.metadata.namespace {
            Some(n) => n.as_str(),
            None => "",
        };
        proof {
            if c.metadata.namespace is None {
                reveal_strlit("");
            }
        }
        assert(ns@ == ns_of(*c));
        if !victim && has_typed_ref(&c.spec, ns, project, kind, name) {
            let is_local = match &c.metadata.namespace {
                Some(n) => str_eq(n.as_str(), project),
                None => false,
            };
            if is_local {
                let ghost before = ref_views(here@);
                here.push(Reference { kind: c.kind.clone(), name: c.metadata.name.clone() });
                assert(ref_views(here@) =~= before.push((c.kind@, c.metadata.name@)));
            } else {
                elsewhere = elsewhere + 1;
            }
        }
        i = i + 1;
    }
    assert(candidates@.subrange(0, candidates@.len() as int) =~= candidates@);
    (sort_references(here), elsewhere)
}

/// A candidate that lives outside the project, is not the resource being deleted, and whose
/// spec references the target by kind, name and namespace.
pub open spec fn foreign_dependent(
    project: Seq<char>,
    kind: Seq<char>,
    name: Seq<char>,
) -> spec_fn(Envelope) -> bool {
    |c: Envelope|
        !is_victim(c, project, kind, name) && typed_ref(c.spec, ns_of(c), project, kind, name)
            && !(c.metadata.namespace is Some && c.metadata.namespace.unwrap()@ == project)
}

/// A candidate of the project itself, not the resource being deleted, whose spec references
/// the target.
pub open spec fn own_dependent(
    project: Seq<char>,
    kind: Seq<char>,
    name: Seq<char>,
) -> spec_fn(Envelope) -> bool {
    |c: Envelope|
        !is_victim(c, project, kind, name) && typed_ref(c.spec, ns_of(c), project, kind, name)
            && c.metadata.namespace is Some && c.metadata.namespace.unwrap()@ == project
}

/// What the deletion check finds among the candidates: the count of other projects'
/// dependents is the number of candidates outside the project that are not the target and
/// reference it; the project's own dependents are those inside it. So a deletion is left
/// unblocked (nothing named, nothing counted) exactly when no candidate other than the target
/// references it.
pub proof fn every_dependent_blocks_the_deletion(
    cs: Seq<Envelope>,
    project: Seq<char>,
    kind: Seq<char>,
    name: Seq<char>,
)
    ensures
        foreign_blockers(cs, project, kind, name) == cs.filter(
            foreign_dependent(project, kind, name),
        ).len(),
        local_blockers(cs, project, kind, name).len() == cs.filter(
            own_dependent(project, kind, name),
        ).len(),
        (local_blockers(cs, project, kind, name).len() + foreign_blockers(cs, project, kind, name)
            > 0) <==> exists|i: int|
            0 <= i < cs.len() && !is_victim(cs[i], project, kind, name) && #[trigger] typed_ref(
                cs[i].spec,
                ns_of(cs[i]),
                project,
                kind,
                name,
            ),
    decreases cs.len(),
{
    reveal(Seq::filter);
    if cs.len() > 0 {
        let rest = cs.drop_last();
        every_dependent_blocks_the_deletion(rest, project, kind, name);
        let c = cs.last();
        assert(cs.filter(foreign_dependent(project, kind, name)) == if foreign_dependent(
            project,
            kind,
            name,
        )(c) {
            rest.filter(foreign_dependent(project, kind, name)).push(c)
        } else {
            rest.filter(foreign_dependent(project, kind, name))
        });
        assert(cs.filter(own_dependent(project, kind, name)) == if own_dependent(
            project,
            kind,
            name,
        )(c) {
            rest.filter(own_dependent(project, kind, name)).push(c)
        } else {
            rest.filter(own_dependent(project, kind, name))
        });
        let total = local_blockers(cs, project, kind, name).len() + foreign_blockers(
            cs,
            project,
            kind,
            name,
        );
        let before = local_blockers(rest, project, kind, name).len() + foreign_blockers(
            rest,
            project,
            kind,
            name,
        );
        if exists|i: int|
            0 <= i < cs.len() && !is_victim(cs[i], project, kind, name) && #[trigger] typed_ref(
                cs[i].spec,
                ns_of(cs[i]),
                project,
                kind,
                name,
            ) {
            let i = choose|i: int|
                0 <= i < cs.len() && !is_victim(cs[i], project, kind, name) && #[trigger] typed_ref(
                    cs[i].spec,
                    ns_of(cs[i]),
                    project,
                    kind,
                    name,
                );
            if i < cs.len() - 1 {
                assert(rest[i] == cs[i]);
                assert(before > 0);
            } else {
                assert(blocks(c, project, kind, name));
            }
            assert(total > 0);
        }
        if total > 0 {
            if before > 0 {
                let i = choose|i: int|
                    0 <= i < rest.len() && !is_victim(rest[i], project, kind, name)
                        && #[trigger] typed_ref(rest[i].spec, ns_of(rest[i]), project, kind, name);
                assert(rest[i] == cs[i]);
            } else {
                assert(blocks(c, project, kind, name));
                assert(typed_ref(cs[cs.len() - 1].spec, ns_of(cs[cs.len() - 1]), project, kind, name));
            }
        }
    }
}

/// `kind name` of each reference, joined with `, `.
pub open spec fn named_references(refs: Seq<(Seq<char>, Seq<char>)>) -> Seq<char> {
    join(refs.map_values(|r: (Seq<char>, Seq<char>)| r.0 + " "@ + r.1), ", "@)
}

/// The refusal a blocked deletion answers: the references of this project named, the others
/// only counted, since another project's resources are not the caller's to see.
pub open spec fn conflict_message_of(here: Seq<(Seq<char>, Seq<char>)>, elsewhere: nat) -> Seq<char> {
    let count = here.len() + elsewhere;
    let head = if count == 1 {
        "1 dependent resource blocks deletion"@
    } else {
        decimal(count) + " dependent resources block deletion"@
    };
    let named = if here.len() > 0 {
        head + ": "@ + named_references(here)
    } else {
        head
    };
    if elsewhere > 0 && here.len() > 0 {
        named + " and "@ + decimal(elsewhere) + " in other projects"@
    } else {
        named
    }
}

/// The refusal a blocked deletion answers on REST.
pub fn conflict_message(here: &[Reference], elsewhere: usize) -> (m: String)
    requires
        here@.len() + elsewhere <= u64::MAX,
    ensures
        m@ == conflict_message_of(ref_views(here@), elsewhere as nat),
{
    let count = here.len() as u64 + elsewhere as u64;
    let mut msg = if count == 1 {
        chars_of("1 dependent resource blocks deletion")
    } else {
        let mut m = decimal_of(count);
        append_str(&mut m, " dependent resources block deletion");
        m
    };
    if here.len() > 0 {
        let mut parts: Vec<Vec<char>> = Vec::new();
        let mut i: usize = 0;
        while i < here.len()
            invariant
                i <= here@.len(),
                parts@.map_values(|p: Vec<char>| p@) == ref_views(here@).subrange(0, i as int).map_values(
                    |r: (Seq<char>, Seq<char>)| r.0 + " "@ + r.1,
                ),
            decreases here.len() - i,
        {
            let mut p = chars_of(here[i].kind.as_str());
            append_str(&mut p, " ");
            append_str(&mut p, here[i].name.as_str());
            let ghost before = parts@.map_values(|p: Vec<char>| p@);
            let ghost line = p@;
            assert(line == ref_view(here@[i as int]).0 + " "@ + ref_view(here@[i as int]).1);
            parts.push(p);
            assert(parts@.map_values(|p: Vec<char>| p@) =~= before.push(line));
            assert(ref_views(here@).subrange(0, i + 1) =~= ref_views(here@).subrange(0, i as int).push(
                ref_view(here@[i as int]),
            ));
            assert(parts@.map_values(|p: Vec<char>| p@) =~= ref_views(here@).subrange(0, i + 1).map_values(
                |r: (Seq<char>, Seq<char>)| r.0 + " "@ + r.1,
            ));
            i = i + 1;
        }
        assert(ref_views(here@).subrange(0, here@.len() as int) =~= ref_views(here@));
        let sep = chars_of(", ");
        let joined = crate::text::join_chars(&parts, sep.as_slice());
        append_str(&mut msg, ": ");
        append_chars(&mut msg, joined.as_slice());
    }
    if elsewhere > 0 && here.len() > 0 {
        append_str(&mut msg, " and ");
        append_chars(&mut msg, decimal_of(elsewhere as u64).as_slice());
        append_str(&mut msg, " in other projects");
    }
    string_of(msg.as_slice())
}

// ---------------------------------------------------------------------------------------
// The files of a resource
// ---------------------------------------------------------------------------------------

/// Whether a path is a file beside the manifest that belongs to the resource it describes:
/// named `{name}.something` in the manifest's directory, or anything under a `{name}/`
/// directory there.
pub open spec fn owned(path: Seq<char>, repo_path: Seq<char>, name: Seq<char>) -> bool {
    let dir = folder_of(repo_path);
    path != repo_path && (starts_with(path, dir + "/"@ + name + "."@) || starts_with(
        path,
        dir + "/"@ + name + "/"@,
    ))
}

/// Every file of the tree beside the manifest that belongs to the resource, in tree order.
pub open spec fn owned_files(tree: Seq<Seq<char>>, repo_path: Seq<char>, name: Seq<char>) -> Seq<Seq<char>>
    decreases tree.len(),
{
    if tree.len() == 0 {
        Seq::empty()
    } else {
        let rest = owned_files(tree.drop_last(), repo_path, name);
        if owned(tree.last(), repo_path, name) {
            rest.push(tree.last())
        } else {
            rest
        }
    }
}

pub fn owned_beside(tree: &Vec<String>, repo_path: &str, name: &str) -> (out: Vec<String>)
    ensures
        views(out@) == owned_files(views(tree@), repo_path@, name@),
{
    let rp = chars_of(repo_path);
    proof {
        lemma_last_index(rp@, '/');
    }
    let dir = match find_last(rp.as_slice(), '/') {
        Some(k) => slice_of(rp.as_slice(), 0, k),
        None => Vec::new(),
    };
    assert(dir@ == folder_of(repo_path@));
    let mut file_prefix = dir.clone();
    append_str(&mut file_prefix, "/");
    append_str(&mut file_prefix, name);
    append_str(&mut file_prefix, ".");
    let mut folder_prefix = dir.clone();
    append_str(&mut folder_prefix, "/");
    append_str(&mut folder_prefix, name);
    append_str(&mut folder_prefix, "/");
    let ghost t = views(tree@);
    let mut out: Vec<String> = Vec::new();
    let mut i: usize = 0;
    assert(views(out@) =~= owned_files(t.subrange(0, 0), repo_path@, name@));
    while i < tree.len()
        invariant
            i <= tree@.len(),
            t == views(tree@),
            rp@ == repo_path@,
            dir@ == folder_of(repo_path@),
            file_prefix@ == dir@ + "/"@ + name@ + "."@,
            folder_prefix@ == dir@ + "/"@ + name@ + "/"@,
            views(out@) == owned_files(t.subrange(0, i as int), repo_path@, name@),
        decreases tree.len() - i,
    {
        assert(t.subrange(0, i + 1).drop_last() =~= t.subrange(0, i as int));
        let p = chars_of(tree[i].as_str());
        assert(t[i as int] == p@);
        let keep = !crate::text::seq_eq(p.as_slice(), rp.as_slice()) && (has_prefix(
            p.as_slice(),
            file_prefix.as_slice(),
        ) || has_prefix(p.as_slice(), folder_prefix.as_slice()));
        if keep {
            let ghost before = views(out@);
            out.push(tree[i].clone());
            assert(views(out@) =~= before.push(t[i as int]));
        }
        i = i + 1;
    }
    assert(t.subrange(0, t.len() as int) =~= t);
    out
}

/// `str::trim_start_matches("./")`.
pub open spec fn without_dot_slashes(s: Seq<char>) -> Seq<char>
    decreases s.len(),
{
    if s.len() >= 2 && s[0] == '.' && s[1] == '/' {
        without_dot_slashes(s.subrange(2, s.len() as int))
    } else {
        s
    }
}

/// Whether any string in the value, with the `./` it starts with dropped, ends with the file
/// name.
pub open spec fn names_file_of(v: JsonValue, file: Seq<char>) -> bool
    decreases v, 0int,
{
    match v {
        JsonValue::Str(s) => ends_with(without_dot_slashes(s@), file),
        JsonValue::Object(m) => member_names_file(m@, file, m@.len() as int),
        JsonValue::Array(a) => item_names_file(a@, file, a@.len() as int),
        _ => false,
    }
}

pub open spec fn member_names_file(m: Seq<(String, JsonValue)>, file: Seq<char>, n: int) -> bool
    decreases m, n,
{
    if n <= 0 || n > m.len() {
        false
    } else {
        member_names_file(m, file, n - 1) || names_file_of(m[n - 1].1, file)
    }
}

pub open spec fn item_names_file(a: Seq<JsonValue>, file: Seq<char>, n: int) -> bool
    decreases a, n,
{
    if n <= 0 || n > a.len() {
        false
    } else {
        item_names_file(a, file, n - 1) || names_file_of(a[n - 1], file)
    }
}

fn strip_dot_slashes(s: &[char]) -> (out: Vec<char>)
    ensures
        out@ == without_dot_slashes(s@),
{
    let mut i: usize = 0;
    assert(s@.subrange(0, s@.len() as int) =~= s@);
    while s.len() - i >= 2 && s[i] == '.' && s[i + 1] == '/'
        invariant
            i <= s@.len(),
            without_dot_slashes(s@) == without_dot_slashes(s@.subrange(i as int, s@.len() as int)),
        decreases s.len() - i,
    {
        assert(s@.subrange(i as int, s@.len() as int).subrange(2, s@.len() - i) =~= s@.subrange(
            i + 2,
            s@.len() as int,
        ));
        i = i + 2;
    }
    slice_of(s, i, s.len())
}

/// Whether any string in the spec ends with this file name.
pub fn names_file(spec: &JsonValue, file: &str) -> (b: bool)
    ensures
        b == names_file_of(*spec, file@),
    decreases spec,
{
    match spec {
        JsonValue::Str(value) => {
            let v = chars_of(value.as_str());
            let t = strip_dot_slashes(v.as_slice());
            let f = chars_of(file);
            has_suffix(t.as_slice(), f.as_slice())
        },
        JsonValue::Object(map) => {
            let mut i: usize = 0;
            while i < map.len()
                invariant
                    i <= map@.len(),
                    *spec == JsonValue::Object(*map),
                    !member_names_file(map@, file@, i as int),
                decreases map.len() - i,
            {
                assert(decreases_to!(*spec => (*spec)->Object_0));
                assert(decreases_to!(*map => map@));
                assert(decreases_to!(map@ => map@[i as int]));
                assert(decreases_to!(map@[i as int] => map@[i as int].1));
                if names_file(&map[i].1, file) {
                    assert(member_names_file(map@, file@, i + 1));
                    proof {
                        lemma_member_names_file_grows(map@, file@, i + 1, map@.len() as int);
                    }
                    return true;
                }
                i = i + 1;
            }
            false
        },
        JsonValue::Array(items) => {
            let mut i: usize = 0;
            while i < items.len()
                invariant
                    i <= items@.len(),
                    *spec == JsonValue::Array(*items),
                    !item_names_file(items@, file@, i as int),
                decreases items.len() - i,
            {
                assert(decreases_to!(*spec => (*spec)->Array_0));
                assert(decreases_to!(*items => items@));
                assert(decreases_to!(items@ => items@[i as int]));
                if names_file(&items[i], file) {
                    assert(item_names_file(items@, file@, i + 1));
                    proof {
                        lemma_item_names_file_grows(items@, file@, i + 1, items@.len() as int);
                    }
                    return true;
                }
                i = i + 1;
            }
            false
        },
        _ => false,
    }
}

// ---------------------------------------------------------------------------------------
// What a deletion writes
// ---------------------------------------------------------------------------------------

pub open spec fn not_found_of(project: Seq<char>, name: Seq<char>) -> Seq<char> {
    "resource '"@ + name + "' not found in project '"@ + project + "'"@
}

/// The commit message and merge request title and body of a deletion.
pub open spec fn deletion_texts(project: Seq<char>, kind: Seq<char>, name: Seq<char>) -> (Seq<char>, Seq<char>) {
    (
        "delete "@ + kind + " "@ + name,
        "Proposed delete of "@ + kind + " `"@ + name + "` in project `"@ + project
            + "` via joinedcontext Portal."@,
    )
}

pub fn deletion_texts_of(project: &str, kind: &str, name: &str) -> (r: (String, String))
    ensures
        (r.0@, r.1@) == deletion_texts(project@, kind@, name@),
{
    let mut title = chars_of("delete ");
    append_str(&mut title, kind);
    append_str(&mut title, " ");
    append_str(&mut title, name);
    let mut body = chars_of("Proposed delete of ");
    append_str(&mut body, kind);
    append_str(&mut body, " `");
    append_str(&mut body, name);
    append_str(&mut body, "` in project `");
    append_str(&mut body, project);
    append_str(&mut body, "` via joinedcontext Portal.");
    (string_of(title.as_slice()), string_of(body.as_slice()))
}


/// The file a path names: what follows its last `/`, or all of it.
pub open spec fn file_name(path: Seq<char>) -> Seq<char> {
    let k = last_index(path, '/');
    if k >= 0 {
        path.subrange(k + 1, path.len() as int)
    } else {
        path
    }
}

/// Whether a candidate is the resource itself, in its project.
pub open spec fn is_itself(c: Envelope, project: Seq<char>, kind: Seq<char>, name: Seq<char>) -> bool {
    c.kind@ == kind && c.metadata.name@ == name && match c.metadata.namespace {
        Some(ns) => ns@ == project,
        None => false,
    }
}

/// Whether a file beside a deleted manifest is still named by another resource, which keeps it
/// in the repository.
pub fn still_named(candidates: &Vec<Envelope>, project: &str, kind: &str, name: &str, path: &str) -> (b: bool)
    ensures
        b == exists|i: int|
            0 <= i < candidates@.len() && !is_itself(#[trigger] candidates@[i], project@, kind@, name@)
                && names_file_of(candidates@[i].spec, file_name(path@)),
{
    let p = chars_of(path);
    proof {
        lemma_last_index(path@, '/');
    }
    let file = match find_last(p.as_slice(), '/') {
        Some(k) => {
            let n = p.len();
            string_of(slice_of(p.as_slice(), k + 1, n).as_slice())
        },
        None => string_of(p.as_slice()),
    };
    let mut i: usize = 0;
    while i < candidates.len()
        invariant
            i <= candidates@.len(),
            file@ == file_name(path@),
            forall|j: int|
                0 <= j < i ==> is_itself(#[trigger] candidates@[j], project@, kind@, name@) || !names_file_of(
                    candidates@[j].spec,
                    file_name(path@),
                ),
        decreases candidates.len() - i,
    {
        let c = &candidates[i];
        let same = str_eq(c.kind.as_str(), kind) && str_eq(c.metadata.name.as_str(), name) && match &c.metadata.namespace {
            Some(ns) => str_eq(ns.as_str(), project),
            None => false,
        };
        if !same && names_file(&c.spec, file.as_str()) {
            assert(!is_itself(candidates@[i as int], project@, kind@, name@));
            return true;
        }
        i = i + 1;
    }
    false
}

} // verus!
