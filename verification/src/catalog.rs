//! The assistant's search over a project: what each space, endpoint and data model offers a
//! question, the access verdict each gets (a space and a model inherit the verdict of an
//! endpoint that opens their space), and the order the matches are shown in.

use vstd::prelude::*;
use crate::assistant::{
    access_of, count_hits, endpoint_of_target, fed_endpoint, field_names, is_word_of, lowered_texts,
    reasons_of, ref_name, ref_name_of, score, text_of, text_of_value, endpoint_access, words, Access,
    Catalog, CatalogItem, Freshness,
};
use crate::json::{get, get_text, views, JsonValue};
use crate::resource::{entry, entry_of, Envelope};
use crate::federation::strictly_sorted;
use crate::text::{append_str, chars_of, join, join_chars, str_eq, string_of};

verus! {

// ---------------------------------------------------------------------------------------
// What a manifest offers a question
// ---------------------------------------------------------------------------------------

/// The space an item belongs to: a space is its own; anything else is in the space its
/// `contextSpaceRef` names, else the one its `joinedcontext.com/space` label names, else none.
pub open spec fn item_space(env: Envelope) -> Seq<char> {
    if env.kind@ == "ContextSpace"@ {
        env.metadata.name@
    } else {
        let by_ref = match get(env.spec, "contextSpaceRef"@) {
            Some(r) => ref_name_of(r),
            None => None,
        };
        match by_ref {
            Some(s) => s,
            None => match entry(env.metadata.labels@, "joinedcontext.com/space"@) {
                Some(s) => s,
                None => Seq::empty(),
            },
        }
    }
}

pub fn space_of(env: &Envelope) -> (s: String)
    ensures
        s@ == item_space(*env),
{
    if str_eq(env.kind.as_str(), "ContextSpace") {
        return env.metadata.name.clone();
    }
    let by_ref = match env.spec.get_member("contextSpaceRef") {
        Some(r) => ref_name(r),
        None => None,
    };
    match by_ref {
        Some(s) => s,
        None => match entry_of(&env.metadata.labels, "joinedcontext.com/space") {
            Some(s) => s.clone(),
            None => string_of(Vec::<char>::new().as_slice()),
        },
    }
}

/// The texts of a map kept as pairs, in key order.
pub open spec fn entry_texts(m: Seq<(String, String)>) -> Seq<Seq<char>> {
    m.map_values(|p: (String, String)| p.1@)
}

/// The labels as one text: each `key value`, joined with a space.
pub open spec fn label_text(labels: Seq<(String, String)>) -> Seq<char> {
    join(labels.map_values(|p: (String, String)| p.0@ + " "@ + p.1@), " "@)
}

/// The text of a member of the spec, every string of it joined.
pub open spec fn spec_text(spec: JsonValue, key: Seq<char>) -> Seq<char> {
    match get(spec, key) {
        Some(v) => text_of_value(v),
        None => Seq::empty(),
    }
}

/// The fields a word can hit, named as a match reason names them.
pub open spec fn field_list(env: Envelope) -> Seq<(Seq<char>, Seq<char>)> {
    let base = seq![
        ("name"@, env.metadata.name@),
        ("title"@, join(entry_texts(env.metadata.title@), " "@)),
        ("description"@, join(entry_texts(env.metadata.description@), " "@)),
        ("labels"@, label_text(env.metadata.labels@)),
    ];
    let a = if env.kind@ == "Endpoint"@ {
        base.push(("slug"@, spec_text(env.spec, "slug"@)))
    } else {
        base
    };
    let b = if env.kind@ == "DataModel"@ {
        a.push(("classes"@, spec_text(env.spec, "classes"@)))
    } else {
        a
    };
    if env.kind@ != "ContextSpace"@ {
        b.push(("space"@, item_space(env)))
    } else {
        b
    }
}

pub open spec fn field_views(fields: Seq<(&str, String)>) -> Seq<(Seq<char>, Seq<char>)> {
    fields.map_values(|f: (&str, String)| (f.0@, f.1@))
}

fn joined_texts(m: &Vec<(String, String)>, labels: bool) -> (out: String)
    ensures
        labels ==> out@ == label_text(m@),
        !labels ==> out@ == join(entry_texts(m@), " "@),
{
    let mut parts: Vec<Vec<char>> = Vec::new();
    let mut i: usize = 0;
    while i < m.len()
        invariant
            i <= m@.len(),
            labels ==> parts@.map_values(|p: Vec<char>| p@) == m@.take(i as int).map_values(
                |p: (String, String)| p.0@ + " "@ + p.1@,
            ),
            !labels ==> parts@.map_values(|p: Vec<char>| p@) == entry_texts(m@.take(i as int)),
        decreases m.len() - i,
    {
        let ghost before = parts@.map_values(|p: Vec<char>| p@);
        let piece = if labels {
            let mut t = chars_of(m[i].0.as_str());
            append_str(&mut t, " ");
            append_str(&mut t, m[i].1.as_str());
            t
        } else {
            chars_of(m[i].1.as_str())
        };
        parts.push(piece);
        assert(parts@.map_values(|p: Vec<char>| p@) =~= before.push(piece@));
        assert(m@.take(i + 1) =~= m@.take(i as int).push(m@[i as int]));
        i = i + 1;
    }
    assert(m@.take(m@.len() as int) =~= m@);
    let joined = join_chars(&parts, chars_of(" ").as_slice());
    string_of(joined.as_slice())
}

fn spec_text_of(spec: &JsonValue, key: &str) -> (out: String)
    ensures
        out@ == spec_text(*spec, key@),
{
    match spec.get_member(key) {
        Some(v) => text_of(v),
        None => string_of(Vec::<char>::new().as_slice()),
    }
}

/// The fields a word can hit.
pub fn fields(env: &Envelope) -> (out: Vec<(&'static str, String)>)
    ensures
        field_views(out@) == field_list(*env),
{
    let mut out: Vec<(&'static str, String)> = Vec::new();
    out.push(("name", env.metadata.name.clone()));
    out.push(("title", joined_texts(&env.metadata.title, false)));
    out.push(("description", joined_texts(&env.metadata.description, false)));
    out.push(("labels", joined_texts(&env.metadata.labels, true)));
    if str_eq(env.kind.as_str(), "Endpoint") {
        out.push(("slug", spec_text_of(&env.spec, "slug")));
    }
    if str_eq(env.kind.as_str(), "DataModel") {
        out.push(("classes", spec_text_of(&env.spec, "classes")));
    }
    if !str_eq(env.kind.as_str(), "ContextSpace") {
        out.push(("space", space_of(env)));
    }
    assert(field_views(out@) =~= field_list(*env));
    out
}

// ---------------------------------------------------------------------------------------
// One match
// ---------------------------------------------------------------------------------------

/// A match as its caller reads it.
pub struct ItemView {
    pub kind: Seq<char>,
    pub name: Seq<char>,
    pub space: Seq<char>,
    pub owner: Seq<char>,
    pub title: Option<Seq<char>>,
    pub slug: Option<Seq<char>>,
    pub reasons: Seq<Seq<char>>,
    pub allowed: bool,
    pub why: Seq<char>,
    pub hits: nat,
}

pub open spec fn opt_view(s: Option<String>) -> Option<Seq<char>> {
    match s {
        Some(x) => Some(x@),
        None => None,
    }
}

pub open spec fn view_of_item(i: CatalogItem) -> ItemView {
    ItemView {
        kind: i.kind@,
        name: i.name@,
        space: i.space@,
        owner: i.owner@,
        title: opt_view(i.title),
        slug: opt_view(i.endpoint_slug),
        reasons: views(i.match_reason@),
        allowed: i.access.verdict@ == "allowed"@,
        why: i.access.reason@,
        hits: i.hits as nat,
    }
}

pub open spec fn item_views(items: Seq<CatalogItem>) -> Seq<ItemView> {
    items.map_values(|i: CatalogItem| view_of_item(i))
}

/// The title an open item shows: the English one, else the first it has.
pub open spec fn title_text(env: Envelope) -> Option<Seq<char>> {
    match entry(env.metadata.title@, "en"@) {
        Some(t) => Some(t),
        None => if env.metadata.title@.len() > 0 {
            Some(env.metadata.title@[0].1@)
        } else {
            None
        },
    }
}

/// One match: a restricted item shows its name and kind and nothing else.
pub open spec fn item_of(
    env: Envelope,
    project: Seq<char>,
    space: Seq<char>,
    hits: nat,
    reasons: Seq<Seq<char>>,
    allowed: bool,
    why: Seq<char>,
) -> ItemView {
    ItemView {
        kind: env.kind@,
        name: env.metadata.name@,
        space,
        owner: project,
        title: if allowed {
            title_text(env)
        } else {
            None
        },
        slug: if allowed && env.kind@ == "Endpoint"@ {
            get_text(env.spec, "slug"@)
        } else {
            None
        },
        reasons,
        allowed,
        why,
        hits,
    }
}

pub fn title_of(env: &Envelope) -> (t: Option<String>)
    ensures
        opt_view(t) == title_text(*env),
{
    match entry_of(&env.metadata.title, "en") {
        Some(t) => Some(t.clone()),
        None => if env.metadata.title.len() > 0 {
            Some(env.metadata.title[0].1.clone())
        } else {
            None
        },
    }
}

pub fn item(
    env: &Envelope,
    project: &str,
    space: String,
    hits: usize,
    reasons: Vec<String>,
    access: Access,
) -> (i: CatalogItem)
    requires
        access.verdict@ == "allowed"@ || access.verdict@ == "restricted"@,
    ensures
        view_of_item(i) == item_of(
            *env,
            project@,
            space@,
            hits as nat,
            views(reasons@),
            access.verdict@ == "allowed"@,
            access.reason@,
        ),
        i.freshness is None,
{
    let open = access.is_allowed();
    let title = if open {
        title_of(env)
    } else {
        None
    };
    let endpoint_slug = if open && str_eq(env.kind.as_str(), "Endpoint") {
        match env.spec.text_at("slug") {
            Some(s) => Some(s.clone()),
            None => None,
        }
    } else {
        None
    };
    CatalogItem {
        kind: env.kind.clone(),
        name: env.metadata.name.clone(),
        space,
        owner: string_of(chars_of(project).as_slice()),
        title,
        endpoint_slug,
        match_reason: reasons,
        access,
        freshness: None,
        hits,
    }
}

// ---------------------------------------------------------------------------------------
// Scores
// ---------------------------------------------------------------------------------------

pub open spec fn names_of(fl: Seq<(Seq<char>, Seq<char>)>) -> Seq<Seq<char>> {
    fl.map_values(|p: (Seq<char>, Seq<char>)| p.0)
}

pub open spec fn lowered_of(fl: Seq<(Seq<char>, Seq<char>)>) -> Seq<Seq<char>> {
    fl.map_values(|p: (Seq<char>, Seq<char>)| crate::assistant::lowercase(p.1))
}

/// How many words of the question hit a manifest.
pub open spec fn hits_of(env: Envelope, words: Seq<Seq<char>>) -> nat {
    count_hits(lowered_of(field_list(env)), words)
}

/// The fields of a manifest the words hit.
pub open spec fn reasons_for(env: Envelope, words: Seq<Seq<char>>) -> Seq<Seq<char>> {
    reasons_of(names_of(field_list(env)), lowered_of(field_list(env)), words)
}

pub fn score_of(env: &Envelope, words: &Vec<String>) -> (r: (usize, Vec<String>))
    ensures
        r.0 as nat == hits_of(*env, views(words@)),
        views(r.1@) == reasons_for(*env, views(words@)),
{
    let f = fields(env);
    assert(lowered_texts(f@) =~= lowered_of(field_list(*env)));
    assert(field_names(f@) =~= names_of(field_list(*env)));
    score(f.as_slice(), words.as_slice())
}

// ---------------------------------------------------------------------------------------
// The matches of a project
// ---------------------------------------------------------------------------------------

/// The first endpoint, in list order, in `space` that admits the caller.
pub open spec fn door(eps: Seq<Envelope>, project: Seq<char>, space: Seq<char>) -> Option<Seq<char>>
    decreases eps.len(),
{
    if eps.len() == 0 {
        None
    } else if access_of(eps[0].spec, project).0 && item_space(eps[0]) == space {
        Some(eps[0].metadata.name@)
    } else {
        door(eps.drop_first(), project, space)
    }
}

/// The endpoints in `space` the words hit, in list order.
pub open spec fn matched(eps: Seq<Envelope>, words: Seq<Seq<char>>, space: Seq<char>) -> Seq<Seq<char>>
    decreases eps.len(),
{
    if eps.len() == 0 {
        Seq::empty()
    } else {
        let before = matched(eps.drop_last(), words, space);
        if hits_of(eps.last(), words) > 0 && item_space(eps.last()) == space {
            before.push(eps.last().metadata.name@)
        } else {
            before
        }
    }
}

/// The verdict a space, or a data model, inherits: open when an endpoint of its space admits
/// the caller.
pub open spec fn inherited_access(eps: Seq<Envelope>, project: Seq<char>, space: Seq<char>, model: bool) -> (bool, Seq<char>) {
    match door(eps, project, space) {
        Some(e) => (true, "endpoint "@ + e + " admits you"@),
        None => (false, if model {
            "no endpoint of the model's space admits you"@
        } else {
            "no endpoint of the space admits you"@
        }),
    }
}

/// The endpoints the words hit, in list order.
pub open spec fn endpoint_items(eps: Seq<Envelope>, project: Seq<char>, words: Seq<Seq<char>>, n: int) -> Seq<ItemView>
    decreases n,
{
    if n <= 0 || n > eps.len() {
        Seq::empty()
    } else {
        let before = endpoint_items(eps, project, words, n - 1);
        let e = eps[n - 1];
        if hits_of(e, words) == 0 {
            before
        } else {
            before.push(
                item_of(
                    e,
                    project,
                    item_space(e),
                    hits_of(e, words),
                    reasons_for(e, words),
                    access_of(e.spec, project).0,
                    access_of(e.spec, project).1,
                ),
            )
        }
    }
}

pub open spec fn through_reasons(names: Seq<Seq<char>>) -> Seq<Seq<char>> {
    names.map_values(|e: Seq<char>| "endpoint "@ + e)
}

/// The spaces the words hit, or that hold an endpoint the words hit (which then counts as one
/// hit at least, and is named among the reasons).
pub open spec fn space_items(
    eps: Seq<Envelope>,
    spaces: Seq<Envelope>,
    project: Seq<char>,
    words: Seq<Seq<char>>,
    n: int,
) -> Seq<ItemView>
    decreases n,
{
    if n <= 0 || n > spaces.len() {
        Seq::empty()
    } else {
        let before = space_items(eps, spaces, project, words, n - 1);
        let env = spaces[n - 1];
        let name = env.metadata.name@;
        let through = matched(eps, words, name);
        let h0 = hits_of(env, words);
        let h = if through.len() > 0 && h0 == 0 {
            1nat
        } else {
            h0
        };
        let acc = inherited_access(eps, project, name, false);
        if h == 0 {
            before
        } else {
            before.push(item_of(env, project, name, h, reasons_for(env, words) + through_reasons(through), acc.0, acc.1))
        }
    }
}

/// The data models the words hit.
pub open spec fn model_items(
    eps: Seq<Envelope>,
    models: Seq<Envelope>,
    project: Seq<char>,
    words: Seq<Seq<char>>,
    n: int,
) -> Seq<ItemView>
    decreases n,
{
    if n <= 0 || n > models.len() {
        Seq::empty()
    } else {
        let before = model_items(eps, models, project, words, n - 1);
        let env = models[n - 1];
        let space = item_space(env);
        let acc = inherited_access(eps, project, space, true);
        if hits_of(env, words) == 0 {
            before
        } else {
            before.push(item_of(env, project, space, hits_of(env, words), reasons_for(env, words), acc.0, acc.1))
        }
    }
}

fn door_of(eps: &Vec<Envelope>, project: &str, space: &String) -> (r: Option<String>)
    ensures
        opt_view(r) == door(eps@, project@, space@),
{
    let mut i: usize = 0;
    assert(eps@.subrange(0, eps@.len() as int) =~= eps@);
    while i < eps.len()
        invariant
            i <= eps@.len(),
            door(eps@, project@, space@) == door(eps@.subrange(i as int, eps@.len() as int), project@, space@),
        decreases eps.len() - i,
    {
        let ghost rest = eps@.subrange(i as int, eps@.len() as int);
        assert(rest.drop_first() =~= eps@.subrange(i + 1, eps@.len() as int));
        assert(rest[0] == eps@[i as int]);
        let a = endpoint_access(&eps[i].spec, project);
        let sp = space_of(&eps[i]);
        if a.is_allowed() && str_eq(sp.as_str(), space.as_str()) {
            return Some(eps[i].metadata.name.clone());
        }
        i = i + 1;
    }
    None
}

fn matched_of(eps: &Vec<Envelope>, words: &Vec<String>, space: &String) -> (out: Vec<String>)
    ensures
        views(out@) == matched(eps@, views(words@), space@),
{
    let mut out: Vec<String> = Vec::new();
    let mut i: usize = 0;
    while i < eps.len()
        invariant
            i <= eps@.len(),
            views(out@) == matched(eps@.take(i as int), views(words@), space@),
        decreases eps.len() - i,
    {
        assert(eps@.take(i + 1).drop_last() =~= eps@.take(i as int));
        assert(eps@.take(i + 1).last() == eps@[i as int]);
        let (h, _) = score_of(&eps[i], words);
        let sp = space_of(&eps[i]);
        if h > 0 && str_eq(sp.as_str(), space.as_str()) {
            let ghost before = views(out@);
            out.push(eps[i].metadata.name.clone());
            assert(views(out@) =~= before.push(eps@[i as int].metadata.name@));
        }
        i = i + 1;
    }
    assert(eps@.take(eps@.len() as int) =~= eps@);
    out
}

fn push_item(out: &mut Vec<CatalogItem>, i: CatalogItem)
    ensures
        final(out)@ == old(out)@.push(i),
        item_views(final(out)@) == item_views(old(out)@).push(view_of_item(i)),
{
    let ghost before = item_views(out@);
    let ghost v = view_of_item(i);
    out.push(i);
    assert(item_views(out@) =~= before.push(v));
}

/// Every match of a question in a project: the endpoints the words hit, then the spaces, then
/// the data models, each in the order the mirror lists them, with the verdict each gets.
pub fn catalog_items(
    project: &str,
    words: &Vec<String>,
    endpoints: &Vec<Envelope>,
    spaces: &Vec<Envelope>,
    models: &Vec<Envelope>,
) -> (out: Vec<CatalogItem>)
    ensures
        item_views(out@) == endpoint_items(endpoints@, project@, views(words@), endpoints@.len() as int)
            + space_items(endpoints@, spaces@, project@, views(words@), spaces@.len() as int)
            + model_items(endpoints@, models@, project@, views(words@), models@.len() as int),
        forall|k: int| 0 <= k < out@.len() ==> (#[trigger] out@[k]).freshness is None,
{
    let ghost ws = views(words@);
    proof {
        reveal_strlit("allowed");
        reveal_strlit("restricted");
        assert("allowed"@.len() != "restricted"@.len());
    }
    let mut out: Vec<CatalogItem> = Vec::new();
    let mut i: usize = 0;
    while i < endpoints.len()
        invariant
            i <= endpoints@.len(),
            ws == views(words@),
            "allowed"@ != "restricted"@,
            item_views(out@) == endpoint_items(endpoints@, project@, ws, i as int),
            forall|k: int| 0 <= k < out@.len() ==> (#[trigger] out@[k]).freshness is None,
        decreases endpoints.len() - i,
    {
        let env = &endpoints[i];
        let (h, reasons) = score_of(env, words);
        if h > 0 {
            let access = endpoint_access(&env.spec, project);
            let sp = space_of(env);
            let it = item(env, project, sp, h, reasons, access);
            push_item(&mut out, it);
        }
        i = i + 1;
    }
    let ghost first = item_views(out@);
    let mut j: usize = 0;
    while j < spaces.len()
        invariant
            j <= spaces@.len(),
            ws == views(words@),
            "allowed"@ != "restricted"@,
            first == endpoint_items(endpoints@, project@, ws, endpoints@.len() as int),
            item_views(out@) == first + space_items(endpoints@, spaces@, project@, ws, j as int),
            forall|k: int| 0 <= k < out@.len() ==> (#[trigger] out@[k]).freshness is None,
        decreases spaces.len() - j,
    {
        let env = &spaces[j];
        let name = &env.metadata.name;
        let through = matched_of(endpoints, words, name);
        let (h0, mut reasons) = score_of(env, words);
        let h = if through.len() > 0 && h0 == 0 {
            1
        } else {
            h0
        };
        let ghost r0 = views(reasons@);
        let mut k: usize = 0;
        while k < through.len()
            invariant
                k <= through@.len(),
                views(reasons@) == r0 + through_reasons(views(through@).take(k as int)),
            decreases through.len() - k,
        {
            let mut t = chars_of("endpoint ");
            append_str(&mut t, through[k].as_str());
            let ghost before = views(reasons@);
            reasons.push(string_of(t.as_slice()));
            assert(views(through@).take(k + 1) =~= views(through@).take(k as int).push(through@[k as int]@));
            assert(views(reasons@) =~= before.push("endpoint "@ + through@[k as int]@));
            assert(through_reasons(views(through@).take(k + 1)) =~= through_reasons(views(through@).take(k as int)).push(
                "endpoint "@ + through@[k as int]@,
            ));
            k = k + 1;
        }
        assert(views(through@).take(through@.len() as int) =~= views(through@));
        let ghost before_items = item_views(out@);
        if h > 0 {
            let access = match door_of(endpoints, project, name) {
                Some(e) => {
                    let mut t = chars_of("endpoint ");
                    append_str(&mut t, e.as_str());
                    append_str(&mut t, " admits you");
                    Access::allowed(string_of(t.as_slice()))
                },
                None => Access::restricted(string_of(chars_of("no endpoint of the space admits you").as_slice())),
            };
            let it = item(env, project, name.clone(), h, reasons, access);
            push_item(&mut out, it);
            assert(item_views(out@) =~= first + space_items(endpoints@, spaces@, project@, ws, j + 1));
        } else {
            assert(item_views(out@) =~= first + space_items(endpoints@, spaces@, project@, ws, j + 1));
        }
        j = j + 1;
    }
    let ghost second = item_views(out@);
    let mut m: usize = 0;
    while m < models.len()
        invariant
            m <= models@.len(),
            ws == views(words@),
            "allowed"@ != "restricted"@,
            second == endpoint_items(endpoints@, project@, ws, endpoints@.len() as int) + space_items(
                endpoints@,
                spaces@,
                project@,
                ws,
                spaces@.len() as int,
            ),
            item_views(out@) == second + model_items(endpoints@, models@, project@, ws, m as int),
            forall|k: int| 0 <= k < out@.len() ==> (#[trigger] out@[k]).freshness is None,
        decreases models.len() - m,
    {
        let env = &models[m];
        let (h, reasons) = score_of(env, words);
        if h > 0 {
            let sp = space_of(env);
            let access = match door_of(endpoints, project, &sp) {
                Some(e) => {
                    let mut t = chars_of("endpoint ");
                    append_str(&mut t, e.as_str());
                    append_str(&mut t, " admits you");
                    Access::allowed(string_of(t.as_slice()))
                },
                None => Access::restricted(
                    string_of(chars_of("no endpoint of the model's space admits you").as_slice()),
                ),
            };
            let ghost acc = inherited_access(endpoints@, project@, sp@, true);
            assert(access.verdict@ == "allowed"@ <==> acc.0);
            assert(access.reason@ == acc.1);
            let it = item(env, project, sp, h, reasons, access);
            assert(view_of_item(it) == item_of(
                models@[m as int],
                project@,
                item_space(models@[m as int]),
                hits_of(models@[m as int], ws),
                reasons_for(models@[m as int], ws),
                acc.0,
                acc.1,
            ));
            push_item(&mut out, it);
            assert(item_views(out@) =~= second + model_items(endpoints@, models@, project@, ws, m + 1));
        } else {
            assert(item_views(out@) =~= second + model_items(endpoints@, models@, project@, ws, m + 1));
        }
        m = m + 1;
    }
    out
}

// ---------------------------------------------------------------------------------------
// The order matches are shown in
// ---------------------------------------------------------------------------------------

/// The best matches only: a person reads a screen of cards, a model a page of context.
pub const MAX_ITEMS: usize = 20;

/// Ties are broken by kind, in the order a person opens them.
pub open spec fn kind_rank(k: Seq<char>) -> int {
    if k == "Endpoint"@ {
        0
    } else if k == "ContextSpace"@ {
        1
    } else if k == "DataModel"@ {
        2
    } else {
        3
    }
}

/// One match is shown before another: more hits first, then by kind, then by name.
pub open spec fn ranked_before(a: ItemView, b: ItemView) -> bool {
    ||| a.hits > b.hits
    ||| a.hits == b.hits && kind_rank(a.kind) < kind_rank(b.kind)
    ||| a.hits == b.hits && kind_rank(a.kind) == kind_rank(b.kind) && crate::text::lex_lt(a.name, b.name)
}

pub open spec fn in_rank_order(s: Seq<ItemView>) -> bool {
    forall|i: int, j: int| 0 <= i < j < s.len() ==> !ranked_before(#[trigger] s[j], #[trigger] s[i])
}

/// The matches of the kind a search is scoped to, or all of them.
pub open spec fn scoped(s: Seq<ItemView>, scope: Option<Seq<char>>) -> Seq<ItemView>
    decreases s.len(),
{
    if s.len() == 0 {
        Seq::empty()
    } else {
        let before = scoped(s.drop_last(), scope);
        match scope {
            Some(k) => if s.last().kind == k {
                before.push(s.last())
            } else {
                before
            },
            None => before.push(s.last()),
        }
    }
}

proof fn lemma_ranked_before_order(a: ItemView, b: ItemView, c: ItemView)
    ensures
        !(ranked_before(a, b) && ranked_before(b, a)),
        ranked_before(a, b) && ranked_before(b, c) ==> ranked_before(a, c),
{
    crate::text::lemma_lex_asymmetric(a.name, b.name);
    if ranked_before(a, b) && ranked_before(b, c) && a.hits == c.hits && kind_rank(a.kind) == kind_rank(c.kind) {
        crate::text::lemma_lex_transitive(a.name, b.name, c.name);
    }
}

fn kind_rank_of(k: &String) -> (r: u8)
    ensures
        r as int == kind_rank(k@),
{
    if str_eq(k.as_str(), "Endpoint") {
        0
    } else if str_eq(k.as_str(), "ContextSpace") {
        1
    } else if str_eq(k.as_str(), "DataModel") {
        2
    } else {
        3
    }
}

fn shown_before(a: &CatalogItem, b: &CatalogItem) -> (r: bool)
    ensures
        r == ranked_before(view_of_item(*a), view_of_item(*b)),
{
    if a.hits != b.hits {
        return a.hits > b.hits;
    }
    let ka = kind_rank_of(&a.kind);
    let kb = kind_rank_of(&b.kind);
    if ka != kb {
        return ka < kb;
    }
    crate::text::string_less(&a.name, &b.name)
}

/// The matches shown for a question: those of the kind the search is scoped to, in rank order,
/// the best `MAX_ITEMS` of them.
pub fn ranked(items: Vec<CatalogItem>, scope: Option<&str>) -> (out: Vec<CatalogItem>)
    ensures
        out@.len() == if scoped(item_views(items@), opt_str(scope)).len() < MAX_ITEMS {
            scoped(item_views(items@), opt_str(scope)).len()
        } else {
            MAX_ITEMS as nat
        },
        exists|p: Seq<ItemView>|
            p.to_multiset() == scoped(item_views(items@), opt_str(scope)).to_multiset() && in_rank_order(p)
                && item_views(out@) == p.take(out@.len() as int),
        unread(items@) ==> unread(out@),
{
    let ghost all = item_views(items@);
    let ghost orig = items@;
    let mut rest = items;
    let total = rest.len();
    let mut kept: Vec<CatalogItem> = Vec::new();
    let mut i: usize = 0;
    while rest.len() > 0
        invariant
            all == item_views(orig),
            orig.len() == total,
            i + rest@.len() == orig.len(),
            rest@ == orig.subrange(i as int, orig.len() as int),
            item_views(kept@) == scoped(all.take(i as int), opt_str(scope)),
            unread(orig) ==> unread(kept@),
        decreases rest@.len(),
    {
        let it = rest.remove(0);
        assert(it == orig[i as int]);
        assert(all.take(i + 1).drop_last() =~= all.take(i as int));
        assert(all.take(i + 1).last() == view_of_item(it));
        let keep = match scope {
            Some(k) => str_eq(it.kind.as_str(), k),
            None => true,
        };
        if keep {
            let ghost before = item_views(kept@);
            kept.push(it);
            assert(item_views(kept@) =~= before.push(view_of_item(it)));
        }
        i = i + 1;
    }
    assert(all.take(orig.len() as int) =~= all);
    let ghost sc = item_views(kept@);
    let ghost korig = kept@;
    let mut pending = kept;
    let count = pending.len();
    let mut sorted: Vec<CatalogItem> = Vec::new();
    let mut j: usize = 0;
    assert(item_views(sorted@) =~= sc.take(0));
    while pending.len() > 0
        invariant
            sc == item_views(korig),
            korig.len() == count,
            j + pending@.len() == korig.len(),
            pending@ == korig.subrange(j as int, korig.len() as int),
            in_rank_order(item_views(sorted@)),
            item_views(sorted@).to_multiset() == sc.take(j as int).to_multiset(),
            sorted@.len() == j,
            unread(korig) ==> unread(sorted@),
        decreases pending@.len(),
    {
        let x = pending.remove(0);
        assert(x == korig[j as int]);
        let ghost s = item_views(sorted@);
        let mut p: usize = 0;
        while p < sorted.len() && !shown_before(&x, &sorted[p])
            invariant
                p <= sorted@.len(),
                s == item_views(sorted@),
                forall|k: int| 0 <= k < p ==> !ranked_before(view_of_item(x), #[trigger] s[k]),
            decreases sorted.len() - p,
        {
            p = p + 1;
        }
        let ghost vx = view_of_item(x);
        let ghost before_sorted = sorted@;
        sorted.insert(p, x);
        assert(sorted@ =~= before_sorted.insert(p as int, x));
        proof {
            let t = item_views(sorted@);
            assert(t =~= s.insert(p as int, vx));
            assert forall|a: int, b: int| 0 <= a < b < t.len() implies !ranked_before(#[trigger] t[b], #[trigger] t[a]) by {
                if b < p {
                    assert(t[a] == s[a] && t[b] == s[b]);
                } else if b == p {
                    assert(t[a] == s[a]);
                    assert(t[b] == vx);
                } else if a < p {
                    assert(t[a] == s[a] && t[b] == s[b - 1]);
                    lemma_ranked_before_order(s[b - 1], s[a], vx);
                    if b - 1 >= p as int {
                        lemma_ranked_before_order(s[b - 1], vx, s[p as int]);
                        lemma_ranked_before_order(vx, s[p as int], s[b - 1]);
                    }
                } else if a == p {
                    assert(t[a] == vx && t[b] == s[b - 1]);
                    if b - 1 == p as int {
                        lemma_ranked_before_order(vx, s[p as int], vx);
                    } else {
                        assert(!ranked_before(s[b - 1], s[p as int]));
                        lemma_ranked_before_order(s[b - 1], vx, s[p as int]);
                    }
                } else {
                    assert(t[a] == s[a - 1] && t[b] == s[b - 1]);
                }
            }
            vstd::seq_lib::to_multiset_insert(s, p as int, vx);
            assert(sc.take(j + 1) =~= sc.take(j as int).push(vx));
            vstd::seq_lib::to_multiset_build(sc.take(j as int), vx);
        }
        j = j + 1;
    }
    assert(sc.take(korig.len() as int) =~= sc);
    let ghost full = item_views(sorted@);
    let ghost whole = sorted@;
    sorted.truncate(MAX_ITEMS);
    assert(sorted@ =~= whole.take(sorted@.len() as int));
    assert(item_views(sorted@) =~= full.take(sorted@.len() as int));
    sorted
}


// ---------------------------------------------------------------------------------------
// Freshness
// ---------------------------------------------------------------------------------------

/// Whether a pipeline writes through this endpoint.
pub open spec fn feeds(pipeline: Envelope, endpoint: Seq<char>) -> bool {
    match get_text(pipeline.spec, "targetEndpoint"@) {
        Some(t) => fed_endpoint(t) == endpoint,
        None => false,
    }
}

/// The pipeline that feeds an endpoint: the first of the project's pipelines that writes
/// through it.
pub open spec fn feeder(pipelines: Seq<Envelope>, endpoint: Seq<char>) -> Option<Seq<char>>
    decreases pipelines.len(),
{
    if pipelines.len() == 0 {
        None
    } else if feeds(pipelines[0], endpoint) {
        Some(pipelines[0].metadata.name@)
    } else {
        feeder(pipelines.drop_first(), endpoint)
    }
}

proof fn lemma_feeder_push(s: Seq<Envelope>, x: Envelope, e: Seq<char>)
    ensures
        feeder(s.push(x), e) == match feeder(s, e) {
            Some(n) => Some(n),
            None => if feeds(x, e) {
                Some(x.metadata.name@)
            } else {
                None
            },
        },
    decreases s.len(),
{
    if s.len() > 0 {
        assert(s.push(x)[0] == s[0]);
        assert(s.push(x).drop_first() =~= s.drop_first().push(x));
        lemma_feeder_push(s.drop_first(), x, e);
    } else {
        assert(s.push(x)[0] == x);
        assert(s.push(x).drop_first() =~= Seq::<Envelope>::empty());
        reveal_with_fuel(feeder, 2);
    }
}

proof fn lemma_entry_push(s: Seq<(String, String)>, x: (String, String), k: Seq<char>)
    ensures
        entry(s.push(x), k) == match entry(s, k) {
            Some(v) => Some(v),
            None => if x.0@ == k {
                Some(x.1@)
            } else {
                None
            },
        },
    decreases s.len(),
{
    if s.len() > 0 {
        assert(s.push(x)[0] == s[0]);
        assert(s.push(x).drop_first() =~= s.drop_first().push(x));
        lemma_entry_push(s.drop_first(), x, k);
    } else {
        assert(s.push(x)[0] == x);
        assert(s.push(x).drop_first() =~= Seq::<(String, String)>::empty());
        reveal_with_fuel(entry, 2);
    }
}

proof fn lemma_entry_none(s: Seq<(String, String)>, k: Seq<char>, j: int)
    requires
        entry(s, k) is None,
        0 <= j < s.len(),
    ensures
        s[j].0@ != k,
    decreases s.len(),
{
    if j > 0 {
        lemma_entry_none(s.drop_first(), k, j - 1);
    }
}

/// No endpoint is named twice.
pub open spec fn keys_distinct(s: Seq<(String, String)>) -> bool {
    forall|a: int, b: int| 0 <= a < b < s.len() ==> (#[trigger] s[a]).0@ != (#[trigger] s[b]).0@
}

/// The endpoint each pipeline of the project writes through, each endpoint once, with the
/// first pipeline that feeds it.
pub fn feeders(pipelines: &Vec<Envelope>) -> (out: Vec<(String, String)>)
    ensures
        keys_distinct(out@),
        forall|e: Seq<char>| #[trigger] entry(out@, e) == feeder(pipelines@, e),
{
    let mut out: Vec<(String, String)> = Vec::new();
    let mut i: usize = 0;
    while i < pipelines.len()
        invariant
            i <= pipelines@.len(),
            keys_distinct(out@),
            forall|e: Seq<char>| #[trigger] entry(out@, e) == feeder(pipelines@.take(i as int), e),
        decreases pipelines.len() - i,
    {
        let p = &pipelines[i];
        let ghost before = out@;
        assert(pipelines@.take(i + 1) =~= pipelines@.take(i as int).push(pipelines@[i as int]));
        match p.spec.text_at("targetEndpoint") {
            Some(t) => {
                let e = endpoint_of_target(t.as_str());
                let known = entry_of(&out, e.as_str()).is_some();
                if !known {
                    let ghost ev = e@;
                    out.push((e, p.metadata.name.clone()));
                    assert forall|a: int, b: int| 0 <= a < b < out@.len() implies (#[trigger] out@[a]).0@
                        != (#[trigger] out@[b]).0@ by {
                        if b == before.len() {
                            lemma_entry_none(before, ev, a);
                        } else {
                            assert(out@[a] == before[a] && out@[b] == before[b]);
                        }
                    }
                    assert forall|k: Seq<char>| #[trigger] entry(out@, k) == feeder(pipelines@.take(i + 1), k) by {
                        lemma_entry_push(before, out@[before.len() as int], k);
                        lemma_feeder_push(pipelines@.take(i as int), pipelines@[i as int], k);
                        if k != ev && entry(before, k) is None {
                            assert(!feeds(pipelines@[i as int], k));
                        }
                    }
                } else {
                    assert forall|k: Seq<char>| #[trigger] entry(out@, k) == feeder(pipelines@.take(i + 1), k) by {
                        lemma_feeder_push(pipelines@.take(i as int), pipelines@[i as int], k);
                    }
                }
            },
            None => {
                assert forall|k: Seq<char>| #[trigger] entry(out@, k) == feeder(pipelines@.take(i + 1), k) by {
                    lemma_feeder_push(pipelines@.take(i as int), pipelines@[i as int], k);
                }
            },
        }
        i = i + 1;
    }
    assert(pipelines@.take(pipelines@.len() as int) =~= pipelines@);
    out
}

/// No match has had its freshness read yet.
pub open spec fn unread(items: Seq<CatalogItem>) -> bool {
    forall|k: int| 0 <= k < items.len() ==> (#[trigger] items[k]).freshness is None
}

/// The freshness reads a search makes: for each shown endpoint that is open to the caller and
/// that a pipeline feeds, its position among the matches and that pipeline.
pub open spec fn reads_of(items: Seq<ItemView>, feeders: Seq<(String, String)>) -> Seq<(int, Seq<char>)>
    decreases items.len(),
{
    if items.len() == 0 {
        Seq::empty()
    } else {
        let prev = reads_of(items.drop_last(), feeders);
        let it = items.last();
        if it.kind == "Endpoint"@ && it.allowed && entry(feeders, it.name) is Some {
            prev.push((items.len() - 1, entry(feeders, it.name).unwrap()))
        } else {
            prev
        }
    }
}

pub open spec fn read_views(reads: Seq<(usize, String)>) -> Seq<(int, Seq<char>)> {
    reads.map_values(|r: (usize, String)| (r.0 as int, r.1@))
}

/// Which freshness reads a search makes, given the endpoints the project's pipelines feed.
pub fn fresh_reads(items: &Vec<CatalogItem>, feeders: &Vec<(String, String)>) -> (out: Vec<(usize, String)>)
    ensures
        read_views(out@) == reads_of(item_views(items@), feeders@),
{
    let ghost all = item_views(items@);
    let mut out: Vec<(usize, String)> = Vec::new();
    let mut i: usize = 0;
    assert(all.take(0) =~= Seq::<ItemView>::empty());
    assert(read_views(out@) =~= Seq::<(int, Seq<char>)>::empty());
    while i < items.len()
        invariant
            i <= items@.len(),
            all == item_views(items@),
            read_views(out@) == reads_of(all.take(i as int), feeders@),
        decreases items.len() - i,
    {
        let it = &items[i];
        assert(all.take(i + 1).drop_last() =~= all.take(i as int));
        assert(all.take(i + 1).last() == view_of_item(*it));
        if str_eq(it.kind.as_str(), "Endpoint") && it.access.is_allowed() {
            match entry_of(feeders, it.name.as_str()) {
                Some(p) => {
                    let ghost before = out@;
                    out.push((i, p.clone()));
                    assert(read_views(out@) =~= read_views(before).push((i as int, p@)));
                },
                None => {},
            }
        }
        i = i + 1;
    }
    assert(all.take(items@.len() as int) =~= all);
    out
}

/// A freshness read that came back, set on the match it was made for.
pub fn set_freshness(items: &mut Vec<CatalogItem>, index: usize, freshness: Freshness)
    requires
        index < old(items)@.len(),
    ensures
        final(items)@.len() == old(items)@.len(),
        item_views(final(items)@) == item_views(old(items)@),
        final(items)@[index as int].freshness == Some(freshness),
        forall|k: int| 0 <= k < old(items)@.len() && k != index ==> #[trigger] final(items)@[k] == old(items)@[k],
{
    let ghost before = items@;
    let mut it = items.remove(index);
    it.freshness = Some(freshness);
    items.insert(index, it);
    assert(items@[index as int] == it);
    assert forall|k: int| 0 <= k < before.len() && k != index implies #[trigger] items@[k] == before[k] by {}
    assert(item_views(items@) =~= item_views(before));
}

/// What a search shows of all the matches: those of the scope, ranked, the best `MAX_ITEMS`.
pub open spec fn shown(out: Seq<ItemView>, all: Seq<ItemView>, scope: Option<Seq<char>>) -> bool {
    &&& out.len() == if scoped(all, scope).len() < MAX_ITEMS {
        scoped(all, scope).len()
    } else {
        MAX_ITEMS as nat
    }
    &&& exists|p: Seq<ItemView>|
        p.to_multiset() == scoped(all, scope).to_multiset() && in_rank_order(p) && out == p.take(
            out.len() as int,
        )
}

/// The words of a question, in order: each word once.
pub open spec fn words_of(ws: Seq<Seq<char>>, q: Seq<char>) -> bool {
    strictly_sorted(ws) && forall|w: Seq<char>| #[trigger] ws.contains(w) <==> is_word_of(q, w)
}

/// The search over a project's manifests: nothing for a question with no word, else the
/// matches shown for its words, their freshness not read yet (see `fresh_reads`).
pub fn search(
    project: &str,
    q: &str,
    endpoints: &Vec<Envelope>,
    spaces: &Vec<Envelope>,
    models: &Vec<Envelope>,
    scope: Option<&str>,
) -> (out: Catalog)
    ensures
        out.q@ == q@,
        unread(out.items@),
        exists|ws: Seq<Seq<char>>|
            #[trigger] words_of(ws, q@) && if ws.len() == 0 {
                out.items@.len() == 0
            } else {
                shown(
                    item_views(out.items@),
                    endpoint_items(endpoints@, project@, ws, endpoints@.len() as int) + space_items(
                        endpoints@,
                        spaces@,
                        project@,
                        ws,
                        spaces@.len() as int,
                    ) + model_items(endpoints@, models@, project@, ws, models@.len() as int),
                    opt_str(scope),
                )
            },
{
    let ws = words(q);
    assert(words_of(views(ws@), q@));
    let question = string_of(chars_of(q).as_slice());
    if ws.len() == 0 {
        return Catalog { q: question, items: Vec::new() };
    }
    let all = catalog_items(project, &ws, endpoints, spaces, models);
    let items = ranked(all, scope);
    Catalog { q: question, items }
}

// ---------------------------------------------------------------------------------------
// What a restricted match shows
// ---------------------------------------------------------------------------------------

/// Every restricted match shows its name and kind and nothing else: no title, no slug.
pub open spec fn discreet(s: Seq<ItemView>) -> bool {
    forall|k: int| 0 <= k < s.len() && !(#[trigger] s[k]).allowed ==> s[k].title is None && s[k].slug is None
}

proof fn lemma_discreet_push(s: Seq<ItemView>, x: ItemView)
    requires
        discreet(s),
        !x.allowed ==> x.title is None && x.slug is None,
    ensures
        discreet(s.push(x)),
{
    assert forall|k: int| 0 <= k < s.push(x).len() && !(#[trigger] s.push(x)[k]).allowed implies s.push(x)[k].title is None
        && s.push(x)[k].slug is None by {
        if k < s.len() {
            assert(s.push(x)[k] == s[k]);
        }
    }
}

proof fn lemma_discreet_concat(a: Seq<ItemView>, b: Seq<ItemView>)
    requires
        discreet(a),
        discreet(b),
    ensures
        discreet(a + b),
{
    assert forall|k: int| 0 <= k < (a + b).len() && !(#[trigger] (a + b)[k]).allowed implies (a + b)[k].title is None
        && (a + b)[k].slug is None by {
        if k < a.len() {
            assert((a + b)[k] == a[k]);
        } else {
            assert((a + b)[k] == b[k - a.len()]);
        }
    }
}

proof fn lemma_endpoint_items_discreet(eps: Seq<Envelope>, project: Seq<char>, words: Seq<Seq<char>>, n: int)
    ensures
        discreet(endpoint_items(eps, project, words, n)),
    decreases n,
{
    if n > 0 && n <= eps.len() {
        lemma_endpoint_items_discreet(eps, project, words, n - 1);
        let e = eps[n - 1];
        if hits_of(e, words) != 0 {
            lemma_discreet_push(
                endpoint_items(eps, project, words, n - 1),
                item_of(
                    e,
                    project,
                    item_space(e),
                    hits_of(e, words),
                    reasons_for(e, words),
                    access_of(e.spec, project).0,
                    access_of(e.spec, project).1,
                ),
            );
        }
    }
}

proof fn lemma_space_items_discreet(
    eps: Seq<Envelope>,
    spaces: Seq<Envelope>,
    project: Seq<char>,
    words: Seq<Seq<char>>,
    n: int,
)
    ensures
        discreet(space_items(eps, spaces, project, words, n)),
    decreases n,
{
    if n > 0 && n <= spaces.len() {
        lemma_space_items_discreet(eps, spaces, project, words, n - 1);
        let env = spaces[n - 1];
        let name = env.metadata.name@;
        let through = matched(eps, words, name);
        let h0 = hits_of(env, words);
        let h = if through.len() > 0 && h0 == 0 {
            1nat
        } else {
            h0
        };
        let acc = inherited_access(eps, project, name, false);
        if h != 0 {
            lemma_discreet_push(
                space_items(eps, spaces, project, words, n - 1),
                item_of(env, project, name, h, reasons_for(env, words) + through_reasons(through), acc.0, acc.1),
            );
        }
    }
}

proof fn lemma_model_items_discreet(
    eps: Seq<Envelope>,
    models: Seq<Envelope>,
    project: Seq<char>,
    words: Seq<Seq<char>>,
    n: int,
)
    ensures
        discreet(model_items(eps, models, project, words, n)),
    decreases n,
{
    if n > 0 && n <= models.len() {
        lemma_model_items_discreet(eps, models, project, words, n - 1);
        let env = models[n - 1];
        let space = item_space(env);
        let acc = inherited_access(eps, project, space, true);
        if hits_of(env, words) != 0 {
            lemma_discreet_push(
                model_items(eps, models, project, words, n - 1),
                item_of(env, project, space, hits_of(env, words), reasons_for(env, words), acc.0, acc.1),
            );
        }
    }
}

proof fn lemma_scoped_from(s: Seq<ItemView>, scope: Option<Seq<char>>, x: ItemView)
    requires
        scoped(s, scope).contains(x),
    ensures
        s.contains(x),
    decreases s.len(),
{
    if s.len() > 0 {
        let before = scoped(s.drop_last(), scope);
        if before.contains(x) {
            lemma_scoped_from(s.drop_last(), scope, x);
            let k = choose|k: int| 0 <= k < s.drop_last().len() && s.drop_last()[k] == x;
            assert(s[k] == x);
        } else {
            let k = choose|k: int| 0 <= k < scoped(s, scope).len() && scoped(s, scope)[k] == x;
            assert(s[s.len() - 1] == x);
        }
    }
}

/// What a search shows of its matches keeps every restricted one discreet: whatever the scope
/// and the ranking, a match the caller may not open shows its name and kind and nothing else.
pub proof fn a_restricted_match_shows_only_its_name(
    out: Seq<ItemView>,
    eps: Seq<Envelope>,
    spaces: Seq<Envelope>,
    models: Seq<Envelope>,
    project: Seq<char>,
    words: Seq<Seq<char>>,
    scope: Option<Seq<char>>,
)
    requires
        shown(
            out,
            endpoint_items(eps, project, words, eps.len() as int) + space_items(
                eps,
                spaces,
                project,
                words,
                spaces.len() as int,
            ) + model_items(eps, models, project, words, models.len() as int),
            scope,
        ),
    ensures
        discreet(out),
{
    let all = endpoint_items(eps, project, words, eps.len() as int) + space_items(
        eps,
        spaces,
        project,
        words,
        spaces.len() as int,
    ) + model_items(eps, models, project, words, models.len() as int);
    lemma_endpoint_items_discreet(eps, project, words, eps.len() as int);
    lemma_space_items_discreet(eps, spaces, project, words, spaces.len() as int);
    lemma_model_items_discreet(eps, models, project, words, models.len() as int);
    lemma_discreet_concat(
        endpoint_items(eps, project, words, eps.len() as int),
        space_items(eps, spaces, project, words, spaces.len() as int),
    );
    lemma_discreet_concat(
        endpoint_items(eps, project, words, eps.len() as int) + space_items(
            eps,
            spaces,
            project,
            words,
            spaces.len() as int,
        ),
        model_items(eps, models, project, words, models.len() as int),
    );
    let p = choose|p: Seq<ItemView>|
        p.to_multiset() == scoped(all, scope).to_multiset() && in_rank_order(p) && out == p.take(out.len() as int);
    p.to_multiset_ensures();
    scoped(all, scope).to_multiset_ensures();
    assert(out.len() <= p.len());
    assert forall|k: int| 0 <= k < out.len() && !(#[trigger] out[k]).allowed implies out[k].title is None
        && out[k].slug is None by {
        let x = out[k];
        assert(x == p[k]);
        assert(p.contains(x));
        vstd::seq_lib::to_multiset_contains(p, x);
        vstd::seq_lib::to_multiset_contains(scoped(all, scope), x);
        lemma_scoped_from(all, scope, x);
        let j = choose|j: int| 0 <= j < all.len() && all[j] == x;
        assert(!all[j].allowed);
    }
}

pub open spec fn opt_str(s: Option<&str>) -> Option<Seq<char>> {
    match s {
        Some(x) => Some(x@),
        None => None,
    }
}

} // verus!
