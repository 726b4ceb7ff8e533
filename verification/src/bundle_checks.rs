//! What an imported bundle is checked for before anything is written: everything wrong with
//! one manifest, the references neither the bundle nor the project can resolve, and the
//! spaces the bundle carries as its own.

use vstd::prelude::*;
use crate::federation::{add_sorted, strictly_sorted};
use crate::json::{get, get_text, views, JsonValue};
use crate::mutate::{find_literal_secret, literal_secret};
use crate::resource::{entry, entry_of, Envelope, KindInfo};
use crate::text::{append_str, chars_of, ends_with, has_suffix, str_eq, string_of};

verus! {

// ---------------------------------------------------------------------------------------
// Everything wrong with one manifest
// ---------------------------------------------------------------------------------------

/// The manifest API version the platform serves.
pub open spec fn served_api_version() -> Seq<char> {
    "joinedcontext.com/v1alpha1"@
}

/// Whether the catalogue serves this kind.
pub open spec fn serves_kind(catalogue: Seq<KindInfo>, kind: Seq<char>) -> bool {
    exists|i: int| 0 <= i < catalogue.len() && (#[trigger] catalogue[i]).kind@ == kind
}

/// The refusals for the build-lane annotations a manifest carries, in the order they are listed.
pub open spec fn annotation_refusals(
    name: Seq<char>,
    built: Seq<String>,
    annotations: Seq<(String, String)>,
    n: int,
) -> Seq<Seq<char>>
    decreases n,
{
    if n <= 0 || n > built.len() {
        Seq::empty()
    } else {
        annotation_refusals(name, built, annotations, n - 1) + if entry(annotations, built[n - 1]@) is Some {
            seq![
                name + ": annotation '"@ + built[n - 1]@
                    + "' is written by this instance's build lane and cannot be imported; the image is built here (AP-11, AP-13a)"@,
            ]
        } else {
            Seq::empty()
        }
    }
}

pub open spec fn when(c: bool, m: Seq<char>) -> Seq<Seq<char>> {
    if c {
        seq![m]
    } else {
        Seq::empty()
    }
}

/// Everything wrong with one manifest, in the order a person would read it: its API version,
/// its kind, its name (as `name_verdict` the naming rules give it), a `status` in what was
/// uploaded (`raw`), a literal secret, and each build-lane annotation of `built` it carries.
pub open spec fn refusals_of(
    env: Envelope,
    raw: JsonValue,
    catalogue: Seq<KindInfo>,
    name_verdict: Result<(), String>,
    built: Seq<String>,
) -> Seq<Seq<char>> {
    let name = env.metadata.name@;
    when(
        env.api_version@ != served_api_version(),
        name + ": apiVersion '"@ + env.api_version@ + "' is not supported (expected '"@
            + served_api_version() + "')"@,
    ) + when(
        !serves_kind(catalogue, env.kind@),
        name + ": kind '"@ + env.kind@ + "' is not a resource this platform serves"@,
    ) + when(
        name_verdict is Err,
        name + ": "@ + match name_verdict {
            Err(p) => p@,
            Ok(_) => Seq::empty(),
        },
    ) + when(
        get(raw, "status"@) is Some,
        name + ": status is computed by the platform and cannot be imported (MF-04)"@,
    ) + when(
        literal_secret(env.spec) is Some,
        name + ": literal secret in field '"@ + match literal_secret(env.spec) {
            Some(k) => k,
            None => Seq::empty(),
        } + "'; use secretRef instead (MF-24)"@,
    ) + annotation_refusals(name, built, env.metadata.annotations@, built.len() as int)
}

fn push_text(out: &mut Vec<String>, m: Vec<char>)
    ensures
        views(final(out)@) == views(old(out)@).push(m@),
{
    let ghost before = views(out@);
    out.push(string_of(m.as_slice()));
    assert(views(out@) =~= before.push(m@));
}

fn known_kind(catalogue: &Vec<KindInfo>, kind: &str) -> (b: bool)
    ensures
        b == serves_kind(catalogue@, kind@),
{
    let mut i: usize = 0;
    while i < catalogue.len()
        invariant
            i <= catalogue@.len(),
            forall|j: int| 0 <= j < i ==> (#[trigger] catalogue@[j]).kind@ != kind@,
        decreases catalogue.len() - i,
    {
        if str_eq(catalogue[i].kind.as_str(), kind) {
            return true;
        }
        i = i + 1;
    }
    false
}

/// Everything wrong with one manifest of a bundle.
pub fn refusals(
    env: &Envelope,
    raw: &JsonValue,
    catalogue: &Vec<KindInfo>,
    name_verdict: &Result<(), String>,
    built: &Vec<String>,
) -> (out: Vec<String>)
    ensures
        views(out@) == refusals_of(*env, *raw, catalogue@, *name_verdict, built@),
{
    let name = env.metadata.name.as_str();
    let mut out: Vec<String> = Vec::new();
    let ghost name_g = env.metadata.name@;
    proof {
        reveal_strlit("joinedcontext.com/v1alpha1");
    }
    if !str_eq(env.api_version.as_str(), "joinedcontext.com/v1alpha1") {
        let mut m: Vec<char> = chars_of(name);
        append_str(&mut m, ": apiVersion '");
        append_str(&mut m, env.api_version.as_str());
        append_str(&mut m, "' is not supported (expected '");
        append_str(&mut m, "joinedcontext.com/v1alpha1");
        append_str(&mut m, "')");
        push_text(&mut out, m);
    }
    if !known_kind(catalogue, env.kind.as_str()) {
        let mut m: Vec<char> = chars_of(name);
        append_str(&mut m, ": kind '");
        append_str(&mut m, env.kind.as_str());
        append_str(&mut m, "' is not a resource this platform serves");
        push_text(&mut out, m);
    }
    if let Err(problem) = name_verdict {
        let mut m: Vec<char> = chars_of(name);
        append_str(&mut m, ": ");
        append_str(&mut m, problem.as_str());
        push_text(&mut out, m);
    }
    if raw.get_member("status").is_some() {
        let mut m: Vec<char> = chars_of(name);
        append_str(&mut m, ": status is computed by the platform and cannot be imported (MF-04)");
        push_text(&mut out, m);
    }
    if let Some(key) = find_literal_secret(&env.spec) {
        let mut m: Vec<char> = chars_of(name);
        append_str(&mut m, ": literal secret in field '");
        append_str(&mut m, key.as_str());
        append_str(&mut m, "'; use secretRef instead (MF-24)");
        push_text(&mut out, m);
    }
    let ghost head = views(out@);
    assert(head =~= refusals_of(*env, *raw, catalogue@, *name_verdict, built@).subrange(0, head.len() as int)
        ) by {
        assert(refusals_of(*env, *raw, catalogue@, *name_verdict, built@) =~= head + annotation_refusals(
            name_g,
            built@,
            env.metadata.annotations@,
            built@.len() as int,
        ));
    }
    let mut i: usize = 0;
    while i < built.len()
        invariant
            i <= built@.len(),
            name@ == name_g,
            views(out@) == head + annotation_refusals(name_g, built@, env.metadata.annotations@, i as int),
        decreases built.len() - i,
    {
        if entry_of(&env.metadata.annotations, built[i].as_str()).is_some() {
            let mut m: Vec<char> = chars_of(name);
            append_str(&mut m, ": annotation '");
            append_str(&mut m, built[i].as_str());
            append_str(
                &mut m,
                "' is written by this instance's build lane and cannot be imported; the image is built here (AP-11, AP-13a)",
            );
            let ghost before = views(out@);
            push_text(&mut out, m);
            assert(views(out@) =~= head + annotation_refusals(
                name_g,
                built@,
                env.metadata.annotations@,
                i + 1,
            ));
        } else {
            assert(annotation_refusals(name_g, built@, env.metadata.annotations@, i + 1) =~= annotation_refusals(
                name_g,
                built@,
                env.metadata.annotations@,
                i as int,
            ) + Seq::<Seq<char>>::empty());
        }
        i = i + 1;
    }
    out
}

// ---------------------------------------------------------------------------------------
// References
// ---------------------------------------------------------------------------------------

pub type RefView = (Seq<char>, Seq<char>);

/// Every reference under a value, as `(kind, name)`, in document order. A `secretRef` or an
/// `apiTokenRef` names a Secret in the cluster, not a manifest, and is passed over; a
/// `contextSpaceRef` that is a bare name names a ContextSpace; any other `...Ref` that is an
/// object with a `kind` and a `name` names what they say; anything else is searched.
pub open spec fn refs_of(v: JsonValue) -> Seq<RefView>
    decreases v, 0int,
{
    match v {
        JsonValue::Object(m) => member_refs(m@, m@.len() as int),
        JsonValue::Array(a) => item_refs(a@, a@.len() as int),
        _ => Seq::empty(),
    }
}

pub open spec fn item_refs(items: Seq<JsonValue>, n: int) -> Seq<RefView>
    decreases items, n,
{
    if n <= 0 || n > items.len() {
        Seq::empty()
    } else {
        item_refs(items, n - 1) + refs_of(items[n - 1])
    }
}

pub open spec fn member_refs(m: Seq<(String, JsonValue)>, n: int) -> Seq<RefView>
    decreases m, n,
{
    if n <= 0 || n > m.len() {
        Seq::empty()
    } else {
        let k = m[n - 1].0@;
        let v = m[n - 1].1;
        member_refs(m, n - 1) + if k == "secretRef"@ || k == "apiTokenRef"@ {
            Seq::empty()
        } else if k == "contextSpaceRef"@ && v is Str {
            seq![("ContextSpace"@, v->Str_0@)]
        } else if ends_with(k, "Ref"@) && get_text(v, "kind"@) is Some && get_text(v, "name"@) is Some {
            seq![(get_text(v, "kind"@)->0, get_text(v, "name"@)->0)]
        } else {
            refs_of(v)
        }
    }
}

pub open spec fn ref_views(v: Seq<(String, String)>) -> Seq<RefView> {
    v.map_values(|p: (String, String)| (p.0@, p.1@))
}

fn push_ref(found: &mut Vec<(String, String)>, kind: String, name: String)
    ensures
        ref_views(final(found)@) == ref_views(old(found)@).push((kind@, name@)),
{
    let ghost before = ref_views(found@);
    let ghost r = (kind@, name@);
    found.push((kind, name));
    assert(ref_views(found@) =~= before.push(r));
}

fn walk_refs(value: &JsonValue, found: &mut Vec<(String, String)>)
    ensures
        ref_views(final(found)@) == ref_views(old(found)@) + refs_of(*value),
    decreases value,
{
    match value {
        JsonValue::Array(items) => {
            let ghost start = ref_views(found@);
            let mut i: usize = 0;
            assert(start =~= start + item_refs(items@, 0));
            while i < items.len()
                invariant
                    i <= items@.len(),
                    *value == JsonValue::Array(*items),
                    ref_views(found@) == start + item_refs(items@, i as int),
                decreases items.len() - i,
            {
                let ghost before = ref_views(found@);
                assert(decreases_to!(*value => (*value)->Array_0));
                assert(decreases_to!(*items => items@));
                assert(decreases_to!(items@ => items@[i as int]));
                assert(decreases_to!(*value => items@[i as int]));
                walk_refs(&items[i], found);
                assert(start + item_refs(items@, i + 1) =~= before + refs_of(items@[i as int]));
                i = i + 1;
            }
        },
        JsonValue::Object(members) => {
            let ghost start = ref_views(found@);
            let mut i: usize = 0;
            assert(start =~= start + member_refs(members@, 0));
            while i < members.len()
                invariant
                    i <= members@.len(),
                    *value == JsonValue::Object(*members),
                    ref_views(found@) == start + member_refs(members@, i as int),
                decreases members.len() - i,
            {
                let ghost before = ref_views(found@);
                let key = members[i].0.as_str();
                let child = &members[i].1;
                if str_eq(key, "secretRef") || str_eq(key, "apiTokenRef") {
                    assert(start + member_refs(members@, i + 1) =~= before);
                } else {
                    let string_ref: Option<&String> = if str_eq(key, "contextSpaceRef") {
                        match child {
                            JsonValue::Str(n) => Some(n),
                            _ => None,
                        }
                    } else {
                        None
                    };
                    let k = chars_of(key);
                    let suffix = chars_of("Ref");
                    let typed: Option<(&String, &String)> = if string_ref.is_none() && has_suffix(
                        k.as_slice(),
                        suffix.as_slice(),
                    ) {
                        match (child.text_at("kind"), child.text_at("name")) {
                            (Some(a), Some(b)) => Some((a, b)),
                            _ => None,
                        }
                    } else {
                        None
                    };
                    if let Some(n) = string_ref {
                        let cs = chars_of("ContextSpace");
                        push_ref(found, string_of(cs.as_slice()), n.clone());
                        assert(start + member_refs(members@, i + 1) =~= ref_views(found@));
                    } else if let Some((a, b)) = typed {
                        push_ref(found, a.clone(), b.clone());
                        assert(start + member_refs(members@, i + 1) =~= ref_views(found@));
                    } else {
                        assert(decreases_to!(*value => (*value)->Object_0));
                        assert(decreases_to!(*members => members@));
                        assert(decreases_to!(members@ => members@[i as int]));
                        assert(decreases_to!(members@[i as int] => members@[i as int].1));
                        assert(decreases_to!(*value => members@[i as int].1));
                        walk_refs(child, found);
                        assert(start + member_refs(members@, i + 1) =~= before + refs_of(members@[i as int].1));
                    }
                }
                i = i + 1;
            }
        },
        _ => {
            assert(ref_views(found@) =~= ref_views(found@) + Seq::<RefView>::empty());
        },
    }
}

/// Every reference in one manifest's `spec`, as `(kind, name)`, in document order.
pub fn references(spec: &JsonValue) -> (found: Vec<(String, String)>)
    ensures
        ref_views(found@) == refs_of(*spec),
{
    let mut found: Vec<(String, String)> = Vec::new();
    walk_refs(spec, &mut found);
    assert(ref_views(found@) =~= Seq::<RefView>::empty() + refs_of(*spec));
    found
}

/// The bundle holds a manifest of this kind and name.
pub open spec fn inside(manifests: Seq<Envelope>, kind: Seq<char>, name: Seq<char>) -> bool {
    exists|i: int| 0 <= i < manifests.len() && (#[trigger] manifests[i]).kind@ == kind && manifests[i].metadata.name@ == name
}

/// The pair is listed.
pub open spec fn listed(pairs: Seq<(String, String)>, kind: Seq<char>, name: Seq<char>) -> bool {
    exists|i: int| 0 <= i < pairs.len() && (#[trigger] pairs[i]).0@ == kind && pairs[i].1@ == name
}

pub open spec fn unresolved_message(of: Seq<char>, kind: Seq<char>, name: Seq<char>, project: Seq<char>) -> Seq<char> {
    of + ": "@ + kind + " '"@ + name + "' is in neither the bundle nor project '"@ + project + "'"@
}

/// A reference `r` of the manifest named `of` that neither the bundle nor the project holds,
/// and `x` the words that say so.
pub open spec fn bad_ref(
    manifests: Seq<Envelope>,
    held: Seq<(String, String)>,
    project: Seq<char>,
    of: Seq<char>,
    r: RefView,
    x: Seq<char>,
) -> bool {
    &&& !inside(manifests, r.0, r.1)
    &&& !listed(held, r.0, r.1)
    &&& x == unresolved_message(of, r.0, r.1, project)
}

/// A reference of one of the bundle's manifests that neither the bundle nor the project holds
/// (`held` is what the project holds of the references asked about), as the words that say so.
pub open spec fn is_unresolved(
    manifests: Seq<Envelope>,
    held: Seq<(String, String)>,
    project: Seq<char>,
    x: Seq<char>,
) -> bool {
    exists|a: int, j: int|
        0 <= a < manifests.len() && 0 <= j < refs_of(manifests[a].spec).len() && #[trigger] bad_ref(
            manifests,
            held,
            project,
            manifests[a].metadata.name@,
            refs_of(manifests[a].spec)[j],
            x,
        )
}

fn in_bundle(manifests: &Vec<Envelope>, kind: &String, name: &String) -> (b: bool)
    ensures
        b == inside(manifests@, kind@, name@),
{
    let mut i: usize = 0;
    while i < manifests.len()
        invariant
            i <= manifests@.len(),
            forall|j: int| 0 <= j < i ==> !((#[trigger] manifests@[j]).kind@ == kind@ && manifests@[j].metadata.name@ == name@),
        decreases manifests.len() - i,
    {
        if str_eq(manifests[i].kind.as_str(), kind.as_str()) && str_eq(
            manifests[i].metadata.name.as_str(),
            name.as_str(),
        ) {
            return true;
        }
        i = i + 1;
    }
    false
}

fn in_pairs(pairs: &Vec<(String, String)>, kind: &String, name: &String) -> (b: bool)
    ensures
        b == listed(pairs@, kind@, name@),
{
    let mut i: usize = 0;
    while i < pairs.len()
        invariant
            i <= pairs@.len(),
            forall|j: int| 0 <= j < i ==> !((#[trigger] pairs@[j]).0@ == kind@ && pairs@[j].1@ == name@),
        decreases pairs.len() - i,
    {
        if str_eq(pairs[i].0.as_str(), kind.as_str()) && str_eq(pairs[i].1.as_str(), name.as_str()) {
            return true;
        }
        i = i + 1;
    }
    false
}

/// The references the bundle names and neither it nor the project holds, each said once, in
/// order. `held` is what the project holds of the references the bundle names.
pub fn unresolved(manifests: &Vec<Envelope>, held: &Vec<(String, String)>, project: &str) -> (out: Vec<String>)
    ensures
        strictly_sorted(views(out@)),
        forall|x: Seq<char>| #[trigger] views(out@).contains(x) <==> is_unresolved(manifests@, held@, project@, x),
{
    let ghost ms = manifests@;
    let ghost hs = held@;
    let mut out: Vec<String> = Vec::new();
    let mut i: usize = 0;
    while i < manifests.len()
        invariant
            i <= ms.len(),
            ms == manifests@,
            hs == held@,
            strictly_sorted(views(out@)),
            forall|x: Seq<char>| #[trigger] views(out@).contains(x) <==> exists|a: int, j: int|
                0 <= a < i && 0 <= j < refs_of(ms[a].spec).len() && #[trigger] bad_ref(
                    ms,
                    hs,
                    project@,
                    ms[a].metadata.name@,
                    refs_of(ms[a].spec)[j],
                    x,
                ),
        decreases manifests.len() - i,
    {
        let named = references(&manifests[i].spec);
        let ghost rs = refs_of(ms[i as int].spec);
        let ghost of = ms[i as int].metadata.name@;
        let ghost before = views(out@);
        let mut j: usize = 0;
        while j < named.len()
            invariant
                i < ms.len(),
                ms == manifests@,
                hs == held@,
                j <= named@.len(),
                ref_views(named@) == rs,
                of == ms[i as int].metadata.name@,
                strictly_sorted(views(out@)),
                forall|x: Seq<char>| #[trigger] views(out@).contains(x) <==> (before.contains(x) || exists|b: int|
                    0 <= b < j && #[trigger] bad_ref(ms, hs, project@, of, rs[b], x)),
            decreases named.len() - j,
        {
            let kind = &named[j].0;
            let name = &named[j].1;
            assert(rs[j as int] == (kind@, name@));
            let ghost prior = views(out@);
            if !in_bundle(manifests, kind, name) && !in_pairs(held, kind, name) {
                let mut m: Vec<char> = chars_of(manifests[i].metadata.name.as_str());
                append_str(&mut m, ": ");
                append_str(&mut m, kind.as_str());
                append_str(&mut m, " '");
                append_str(&mut m, name.as_str());
                append_str(&mut m, "' is in neither the bundle nor project '");
                append_str(&mut m, project);
                append_str(&mut m, "'");
                let t = string_of(m.as_slice());
                add_sorted(&mut out, &t);
                assert(bad_ref(ms, hs, project@, of, rs[j as int], t@));
                assert forall|x: Seq<char>| #[trigger] views(out@).contains(x) <==> (before.contains(x) || exists|b: int|
                    0 <= b < j + 1 && #[trigger] bad_ref(ms, hs, project@, of, rs[b], x)) by {
                    if exists|b: int| 0 <= b < j + 1 && #[trigger] bad_ref(ms, hs, project@, of, rs[b], x) {
                        let b = choose|b: int| 0 <= b < j + 1 && #[trigger] bad_ref(ms, hs, project@, of, rs[b], x);
                        if b < j {
                            assert(exists|b2: int| 0 <= b2 < j && #[trigger] bad_ref(ms, hs, project@, of, rs[b2], x));
                            assert(prior.contains(x));
                        }
                    }
                    if prior.contains(x) && !before.contains(x) {
                        let b = choose|b: int| 0 <= b < j && #[trigger] bad_ref(ms, hs, project@, of, rs[b], x);
                        assert(bad_ref(ms, hs, project@, of, rs[b], x));
                    }
                }
            } else {
                assert forall|x: Seq<char>| #[trigger] views(out@).contains(x) <==> (before.contains(x) || exists|b: int|
                    0 <= b < j + 1 && #[trigger] bad_ref(ms, hs, project@, of, rs[b], x)) by {
                    if exists|b: int| 0 <= b < j + 1 && #[trigger] bad_ref(ms, hs, project@, of, rs[b], x) {
                        let b = choose|b: int| 0 <= b < j + 1 && #[trigger] bad_ref(ms, hs, project@, of, rs[b], x);
                        assert(b < j);
                    }
                    if prior.contains(x) && !before.contains(x) {
                        let b = choose|b: int| 0 <= b < j && #[trigger] bad_ref(ms, hs, project@, of, rs[b], x);
                        assert(bad_ref(ms, hs, project@, of, rs[b], x));
                    }
                }
            }
            j = j + 1;
        }
        assert forall|x: Seq<char>| #[trigger] views(out@).contains(x) <==> exists|a: int, j: int|
            0 <= a < i + 1 && 0 <= j < refs_of(ms[a].spec).len() && #[trigger] bad_ref(
                ms,
                hs,
                project@,
                ms[a].metadata.name@,
                refs_of(ms[a].spec)[j],
                x,
            ) by {
            if views(out@).contains(x) {
                if before.contains(x) {
                    let (a, b) = choose|a: int, j: int|
                        0 <= a < i && 0 <= j < refs_of(ms[a].spec).len() && #[trigger] bad_ref(
                            ms,
                            hs,
                            project@,
                            ms[a].metadata.name@,
                            refs_of(ms[a].spec)[j],
                            x,
                        );
                    assert(bad_ref(ms, hs, project@, ms[a].metadata.name@, refs_of(ms[a].spec)[b], x));
                } else {
                    let b = choose|b: int| 0 <= b < named@.len() && #[trigger] bad_ref(ms, hs, project@, of, rs[b], x);
                    assert(bad_ref(ms, hs, project@, ms[i as int].metadata.name@, refs_of(ms[i as int].spec)[b], x));
                }
            }
            if exists|a: int, j: int|
                0 <= a < i + 1 && 0 <= j < refs_of(ms[a].spec).len() && #[trigger] bad_ref(
                    ms,
                    hs,
                    project@,
                    ms[a].metadata.name@,
                    refs_of(ms[a].spec)[j],
                    x,
                ) {
                let (a, b) = choose|a: int, j: int|
                    0 <= a < i + 1 && 0 <= j < refs_of(ms[a].spec).len() && #[trigger] bad_ref(
                        ms,
                        hs,
                        project@,
                        ms[a].metadata.name@,
                        refs_of(ms[a].spec)[j],
                        x,
                    );
                if a == i {
                    assert(bad_ref(ms, hs, project@, of, rs[b], x));
                } else {
                    assert(before.contains(x));
                }
            }
        }
        i = i + 1;
    }
    out
}

// ---------------------------------------------------------------------------------------
// The spaces a bundle carries
// ---------------------------------------------------------------------------------------

/// The space a manifest lives under: its `joinedcontext.com/space` label, else the space its
/// `contextSpaceRef` names (a bare name, or the `name` of an object), else its namespace.
pub open spec fn space_of_manifest(env: Envelope) -> Option<Seq<char>> {
    match entry(env.metadata.labels@, "joinedcontext.com/space"@) {
        Some(s) => Some(s),
        None => {
            let by_ref = match get(env.spec, "contextSpaceRef"@) {
                Some(JsonValue::Str(n)) => Some(n@),
                Some(r) => get_text(r, "name"@),
                None => None,
            };
            match by_ref {
                Some(s) => Some(s),
                None => match env.metadata.namespace {
                    Some(n) => Some(n@),
                    None => None,
                },
            }
        },
    }
}

pub fn space_of(env: &Envelope) -> (r: Option<&String>)
    ensures
        match r {
            Some(s) => space_of_manifest(*env) == Some(s@),
            None => space_of_manifest(*env) is None,
        },
{
    if let Some(s) = entry_of(&env.metadata.labels, "joinedcontext.com/space") {
        return Some(s);
    }
    let by_ref: Option<&String> = match env.spec.get_member("contextSpaceRef") {
        Some(JsonValue::Str(n)) => Some(n),
        Some(r) => r.text_at("name"),
        None => None,
    };
    match by_ref {
        Some(s) => Some(s),
        None => match &env.metadata.namespace {
            Some(n) => Some(n),
            None => None,
        },
    }
}

/// A space the bundle carries: a `ContextSpace` it holds, or the space one of its manifests
/// lives under.
pub open spec fn own_space(manifests: Seq<Envelope>, x: Seq<char>) -> bool {
    exists|i: int|
        0 <= i < manifests.len() && ((#[trigger] manifests[i]).kind@ == "ContextSpace"@ && manifests[i].metadata.name@
            == x || space_of_manifest(manifests[i]) == Some(x))
}

/// The spaces a bundle carries, each once, in order. An id in one of them is the bundle's own
/// and travels with it; an id in any other space names another organisation and is left alone.
pub fn own_spaces(manifests: &Vec<Envelope>) -> (out: Vec<String>)
    ensures
        strictly_sorted(views(out@)),
        forall|x: Seq<char>| views(out@).contains(x) <==> own_space(manifests@, x),
{
    let mut out: Vec<String> = Vec::new();
    let mut i: usize = 0;
    while i < manifests.len()
        invariant
            i <= manifests@.len(),
            strictly_sorted(views(out@)),
            forall|x: Seq<char>| views(out@).contains(x) <==> own_space(manifests@.take(i as int), x),
        decreases manifests.len() - i,
    {
        let ghost before = views(out@);
        let ghost seen = manifests@.take(i as int);
        let ghost now = manifests@.take(i + 1);
        let env = &manifests[i];
        if str_eq(env.kind.as_str(), "ContextSpace") {
            add_sorted(&mut out, &env.metadata.name);
        }
        let ghost mid = views(out@);
        if let Some(s) = space_of(env) {
            add_sorted(&mut out, s);
        }
        assert forall|x: Seq<char>| views(out@).contains(x) <==> own_space(now, x) by {
            assert(now[i as int] == manifests@[i as int]);
            if own_space(now, x) {
                let k = choose|k: int| 0 <= k < now.len() && ((#[trigger] now[k]).kind@ == "ContextSpace"@
                    && now[k].metadata.name@ == x || space_of_manifest(now[k]) == Some(x));
                if k < i {
                    assert(seen[k] == now[k]);
                    assert(own_space(seen, x));
                }
            }
            if own_space(seen, x) {
                let k = choose|k: int| 0 <= k < seen.len() && ((#[trigger] seen[k]).kind@ == "ContextSpace"@
                    && seen[k].metadata.name@ == x || space_of_manifest(seen[k]) == Some(x));
                assert(now[k] == seen[k]);
            }
        }
        i = i + 1;
    }
    assert(manifests@.take(manifests@.len() as int) =~= manifests@);
    out
}

} // verus!
