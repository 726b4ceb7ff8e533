//! DataModel sources: where a LinkML file may live, what a new source changes against the
//! published one, and the version the change earns.

use vstd::prelude::*;
use base64::Engine;
use crate::error::ApiError;
use crate::json_edit::set_member;
use crate::json::{
    lookup, member, members_at, members_under, strings_at, strings_under, views, JsonValue,
    bool_of_opt, get, text_of_opt,
};
use crate::text::{
    append_chars, append_str, chars_of, contains, has_char, has_infix, has_prefix, has_suffix,
    seq_eq, slice_of, split, split_chars, starts_with, ends_with, string_of, decimal, decimal_of,
    same_ignoring_case, eq_ignore_case,
};

verus! {

// ---------------------------------------------------------------------------------------
// Where a LinkML source may be
// ---------------------------------------------------------------------------------------

/// `spec.linkml` without a leading `./`.
pub open spec fn linkml_trimmed(s: Seq<char>) -> Seq<char> {
    if starts_with(s, "./"@) {
        s.subrange("./"@.len() as int, s.len() as int)
    } else {
        s
    }
}

/// Whether a `/`-separated path has a `.` or `..` segment.
pub open spec fn has_dot_segment(t: Seq<char>) -> bool {
    exists|k: int|
        0 <= k < split(t, '/').len() && (#[trigger] split(t, '/')[k] == ".."@ || split(t, '/')[k]
            == "."@)
}

/// What `confine_linkml_path` answers: the relative path inside the model's directory, or
/// the first rule the path breaks.
pub open spec fn linkml_verdict(s: Seq<char>) -> Result<Seq<char>, Seq<char>> {
    let t = linkml_trimmed(s);
    if starts_with(s, "/"@) || s.contains('\\') {
        Err("linkml path must be relative, not absolute"@)
    } else if t.len() == 0 || starts_with(t, "/"@) || has_dot_segment(t) {
        Err("linkml path must not contain '..' segments or be empty"@)
    } else if !ends_with(t, ".linkml.yaml"@) {
        Err("linkml path must end with .linkml.yaml"@)
    } else {
        Ok(t)
    }
}

/// Confines `spec.linkml`: rejects absolute paths, `..` segments, and paths outside `datamodels/`.
pub fn confine_linkml_path(linkml: &str) -> (r: Result<String, ApiError>)
    ensures
        match (r, linkml_verdict(linkml@)) {
            (Ok(p), Ok(q)) => p@ == q,
            (Err(ApiError::BadRequest(m)), Err(q)) => m@ == q,
            _ => false,
        },
{
    let s = chars_of(linkml);
    let slash = chars_of("/");
    if has_prefix(s.as_slice(), slash.as_slice()) || has_char(s.as_slice(), '\\') {
        return Err(ApiError::BadRequest("linkml path must be relative, not absolute".to_owned()));
    }
    let dot_slash = chars_of("./");
    let t = if has_prefix(s.as_slice(), dot_slash.as_slice()) {
        slice_of(s.as_slice(), dot_slash.len(), s.len())
    } else {
        s
    };
    assert(t@ == linkml_trimmed(linkml@));
    if t.len() == 0 || has_prefix(t.as_slice(), slash.as_slice()) || dot_segment(t.as_slice()) {
        return Err(
            ApiError::BadRequest(
                "linkml path must not contain '..' segments or be empty".to_owned(),
            ),
        );
    }
    let suffix = chars_of(".linkml.yaml");
    if !has_suffix(t.as_slice(), suffix.as_slice()) {
        return Err(ApiError::BadRequest("linkml path must end with .linkml.yaml".to_owned()));
    }
    Ok(string_of(t.as_slice()))
}

fn dot_segment(t: &[char]) -> (b: bool)
    ensures
        b == has_dot_segment(t@),
{
    let parts = split_chars(t, '/');
    let dots = chars_of("..");
    let dot = chars_of(".");
    let mut i: usize = 0;
    while i < parts.len()
        invariant
            i <= parts@.len(),
            parts@.len() == split(t@, '/').len(),
            forall|k: int| 0 <= k < parts@.len() ==> #[trigger] parts@[k]@ == split(t@, '/')[k],
            dots@ == ".."@,
            dot@ == "."@,
            forall|k: int|
                0 <= k < i ==> !(#[trigger] split(t@, '/')[k] == ".."@ || split(t@, '/')[k]
                    == "."@),
        decreases parts.len() - i,
    {
        assert(parts@[i as int]@ == split(t@, '/')[i as int]);
        if seq_eq(parts[i].as_slice(), dots.as_slice()) || seq_eq(
            parts[i].as_slice(),
            dot.as_slice(),
        ) {
            return true;
        }
        i = i + 1;
    }
    false
}

// ---------------------------------------------------------------------------------------
// What a new source changes
// ---------------------------------------------------------------------------------------

/// Single detected difference between the published model and the candidate LinkML source.
#[derive(Debug)]
pub struct ModelChange {
    pub severity: String,
    pub subject: String,
    pub reason: String,
}

/// A change as `(severity, subject, reason)`.
pub type ChangeView = (Seq<char>, Seq<char>, Seq<char>);

impl View for ModelChange {
    type V = ChangeView;

    open spec fn view(&self) -> ChangeView {
        (self.severity@, self.subject@, self.reason@)
    }
}

pub open spec fn change_views(v: Seq<ModelChange>) -> Seq<ChangeView> {
    v.map_values(|c: ModelChange| c@)
}

pub open spec fn quoted(before: Seq<char>, name: Seq<char>, after: Seq<char>) -> Seq<char> {
    before + name + after
}

/// The slots a class lists that the new version of the class no longer lists.
pub open spec fn removed_slots(
    class: Seq<char>,
    prev: Seq<Seq<char>>,
    next: Seq<Seq<char>>,
    n: int,
) -> Seq<ChangeView>
    decreases n,
{
    if n <= 0 {
        Seq::empty()
    } else {
        let rest = removed_slots(class, prev, next, n - 1);
        let slot = prev[n - 1];
        if next.contains(slot) {
            rest
        } else {
            rest.push(
                (
                    "breaking"@,
                    class + "."@ + slot,
                    "slot '"@ + slot + "' was removed from class '"@ + class + "'"@,
                ),
            )
        }
    }
}

/// What one class of the published model comes to in the candidate.
pub open spec fn class_changes(
    entry: (String, JsonValue),
    next_classes: Seq<(String, JsonValue)>,
) -> Seq<ChangeView> {
    let name = entry.0@;
    match member(next_classes, name) {
        Some(next_class) => {
            let prev_slots = strings_at(entry.1, "slots"@);
            removed_slots(
                name,
                prev_slots,
                strings_at(next_class, "slots"@),
                prev_slots.len() as int,
            )
        },
        None => seq![("breaking"@, name, "class '"@ + name + "' was removed"@)],
    }
}

pub open spec fn classes_part(
    prev: Seq<(String, JsonValue)>,
    next: Seq<(String, JsonValue)>,
    n: int,
) -> Seq<ChangeView>
    decreases n,
{
    if n <= 0 {
        Seq::empty()
    } else {
        classes_part(prev, next, n - 1) + class_changes(prev[n - 1], next)
    }
}

pub open spec fn added_classes(
    prev: Seq<(String, JsonValue)>,
    next: Seq<(String, JsonValue)>,
    n: int,
) -> Seq<ChangeView>
    decreases n,
{
    if n <= 0 {
        Seq::empty()
    } else {
        let rest = added_classes(prev, next, n - 1);
        let name = next[n - 1].0@;
        if member(prev, name) is Some {
            rest
        } else {
            rest.push(("additive"@, name, "class '"@ + name + "' was added"@))
        }
    }
}

pub open spec fn flag(v: JsonValue, key: Seq<char>) -> bool {
    match bool_of_opt(get(v, key)) {
        Some(b) => b,
        None => false,
    }
}

pub open spec fn is_numeric(n: Seq<char>) -> bool {
    n == "integer"@ || n == "float"@ || n == "double"@ || n == "decimal"@
}

pub open spec fn or_string(r: Option<Seq<char>>) -> Seq<char> {
    match r {
        Some(x) => x,
        None => "string"@,
    }
}

/// Whether a range change only widens what the slot accepts.
pub open spec fn widens(p: Seq<char>, n: Seq<char>) -> bool {
    (p == "integer"@ && is_numeric(n) && n != "integer"@) || (n == "string"@ && p != "string"@)
}

/// What one slot kept by the candidate changes.
pub open spec fn slot_changes(name: Seq<char>, prev: JsonValue, next: JsonValue) -> Seq<
    ChangeView,
> {
    let prev_req = flag(prev, "required"@);
    let next_req = flag(next, "required"@);
    let required: Seq<ChangeView> = if !prev_req && next_req {
        seq![("breaking"@, name, "slot '"@ + name + "' became required"@)]
    } else if prev_req && !next_req {
        seq![("additive"@, name, "slot '"@ + name + "' is no longer required"@)]
    } else {
        Seq::empty()
    };
    let multi: Seq<ChangeView> = if flag(prev, "multivalued"@) != flag(next, "multivalued"@) {
        seq![("breaking"@, name, "slot '"@ + name + "' multivalued changed"@)]
    } else {
        Seq::empty()
    };
    let pr = text_of_opt(get(prev, "range"@));
    let nr = text_of_opt(get(next, "range"@));
    let p = or_string(pr);
    let n = or_string(nr);
    let range: Seq<ChangeView> = if pr == nr {
        Seq::empty()
    } else if widens(p, n) {
        seq![
            (
                "additive"@,
                name,
                "range of slot '"@ + name + "' widened from "@ + p + " to "@ + n,
            ),
        ]
    } else {
        seq![
            (
                "breaking"@,
                name,
                "range of slot '"@ + name + "' changed from "@ + p + " to "@ + n,
            ),
        ]
    };
    required + multi + range
}

pub open spec fn slots_part(
    prev: Seq<(String, JsonValue)>,
    next: Seq<(String, JsonValue)>,
    n: int,
) -> Seq<ChangeView>
    decreases n,
{
    if n <= 0 {
        Seq::empty()
    } else {
        let name = prev[n - 1].0@;
        let here = match member(next, name) {
            Some(next_slot) => slot_changes(name, prev[n - 1].1, next_slot),
            None => seq![("breaking"@, name, "slot '"@ + name + "' was removed"@)],
        };
        slots_part(prev, next, n - 1) + here
    }
}

pub open spec fn added_slots(
    prev: Seq<(String, JsonValue)>,
    next: Seq<(String, JsonValue)>,
    n: int,
) -> Seq<ChangeView>
    decreases n,
{
    if n <= 0 {
        Seq::empty()
    } else {
        let rest = added_slots(prev, next, n - 1);
        let name = next[n - 1].0@;
        if member(prev, name) is Some {
            rest
        } else if flag(next[n - 1].1, "required"@) {
            rest.push(("breaking"@, name, "new required slot '"@ + name + "' was added"@))
        } else {
            rest.push(("additive"@, name, "new optional slot '"@ + name + "' was added"@))
        }
    }
}

/// Every difference between two LinkML documents, in the order the classifier reports them:
/// removed classes and slots of classes, added classes, changed and removed slots, added slots.
pub open spec fn linkml_changes(prev: JsonValue, next: JsonValue) -> Seq<ChangeView> {
    let pc = members_at(prev, "classes"@);
    let nc = members_at(next, "classes"@);
    let ps = members_at(prev, "slots"@);
    let ns = members_at(next, "slots"@);
    classes_part(pc, nc, pc.len() as int) + added_classes(pc, nc, nc.len() as int) + slots_part(
        ps,
        ns,
        ps.len() as int,
    ) + added_slots(ps, ns, ns.len() as int)
}

fn text_of_chars(v: &Vec<char>) -> (s: String)
    ensures
        s@ == v@,
{
    string_of(v.as_slice())
}

fn push_change(
    out: &mut Vec<ModelChange>,
    severity: &str,
    subject: &Vec<char>,
    reason: &Vec<char>,
)
    ensures
        change_views(final(out)@) == change_views(old(out)@).push(
            (severity@, subject@, reason@),
        ),
{
    let c = ModelChange {
        severity: severity.to_owned(),
        subject: text_of_chars(subject),
        reason: text_of_chars(reason),
    };
    let ghost before = out@;
    out.push(c);
    assert(change_views(out@) =~= change_views(before).push((severity@, subject@, reason@)));
}

fn concat3(a: &str, b: &Vec<char>, c: &str) -> (r: Vec<char>)
    ensures
        r@ == a@ + b@ + c@,
{
    let mut r = chars_of(a);
    append_chars(&mut r, b.as_slice());
    append_str(&mut r, c);
    r
}

fn contains_name(names: &Vec<String>, name: &String) -> (b: bool)
    ensures
        b == views(names@).contains(name@),
{
    let mut i: usize = 0;
    while i < names.len()
        invariant
            i <= names@.len(),
            forall|k: int| 0 <= k < i ==> names@[k]@ != name@,
        decreases names.len() - i,
    {
        if names[i] == *name {
            assert(views(names@)[i as int] == name@);
            return true;
        }
        i = i + 1;
    }
    assert(!views(names@).contains(name@)) by {
        if views(names@).contains(name@) {
            let k = choose|k: int| 0 <= k < views(names@).len() && views(names@)[k] == name@;
            assert(names@[k]@ == name@);
        }
    }
    false
}

fn classes_step(
    out: &mut Vec<ModelChange>,
    entry: &(String, JsonValue),
    next_classes: &Vec<(String, JsonValue)>,
)
    ensures
        change_views(final(out)@) == change_views(old(out)@) + class_changes(
            *entry,
            next_classes@,
        ),
{
    let name = chars_of(entry.0.as_str());
    match lookup(next_classes, name.as_slice()) {
        Some(next_class) => {
            let prev_slots = strings_under(&entry.1, "slots");
            let next_slots = strings_under(next_class, "slots");
            let ghost start = change_views(out@);
            let ghost pv = views(prev_slots@);
            let ghost nv = views(next_slots@);
            let mut i: usize = 0;
            while i < prev_slots.len()
                invariant
                    i <= prev_slots@.len(),
                    pv == views(prev_slots@),
                    nv == views(next_slots@),
                    name@ == entry.0@,
                    change_views(out@) == start + removed_slots(name@, pv, nv, i as int),
                decreases prev_slots.len() - i,
            {
                let slot = &prev_slots[i];
                assert(pv[i as int] == slot@);
                if !contains_name(&next_slots, slot) {
                    let slot_chars = chars_of(slot.as_str());
                    let mut subject = name.clone();
                    append_str(&mut subject, ".");
                    append_chars(&mut subject, slot_chars.as_slice());
                    let mut reason = concat3("slot '", &slot_chars, "' was removed from class '");
                    append_chars(&mut reason, name.as_slice());
                    append_str(&mut reason, "'");
                    push_change(out, "breaking", &subject, &reason);
                }
                i = i + 1;
            }
        },
        None => {
            let reason = concat3("class '", &name, "' was removed");
            push_change(out, "breaking", &name, &reason);
        },
    }
}

fn classes_missing(
    out: &mut Vec<ModelChange>,
    prev: &Vec<(String, JsonValue)>,
    next: &Vec<(String, JsonValue)>,
)
    ensures
        change_views(final(out)@) == change_views(old(out)@) + added_classes(
            prev@,
            next@,
            next@.len() as int,
        ),
{
    let ghost start = change_views(out@);
    let mut i: usize = 0;
    while i < next.len()
        invariant
            i <= next@.len(),
            change_views(out@) == start + added_classes(prev@, next@, i as int),
        decreases next.len() - i,
    {
        let name = chars_of(next[i].0.as_str());
        if lookup(prev, name.as_slice()).is_none() {
            let reason = concat3("class '", &name, "' was added");
            push_change(out, "additive", &name, &reason);
        }
        i = i + 1;
    }
}

fn flag_of(v: &JsonValue, key: &str) -> (b: bool)
    ensures
        b == flag(*v, key@),
{
    match v.flag_at(key) {
        Some(b) => b,
        None => false,
    }
}

fn range_of(v: &JsonValue) -> (r: Option<Vec<char>>)
    ensures
        match r {
            Some(x) => text_of_opt(get(*v, "range"@)) == Some(x@),
            None => text_of_opt(get(*v, "range"@)) is None,
        },
{
    match v.text_at("range") {
        Some(s) => Some(chars_of(s.as_str())),
        None => None,
    }
}

fn same_range(a: &Option<Vec<char>>, b: &Option<Vec<char>>) -> (r: bool)
    ensures
        r == (match (a, b) {
            (Some(x), Some(y)) => x@ == y@,
            (None, None) => true,
            _ => false,
        }),
{
    match (a, b) {
        (Some(x), Some(y)) => seq_eq(x.as_slice(), y.as_slice()),
        (None, None) => true,
        _ => false,
    }
}

fn is_one_of(n: &Vec<char>, word: &str) -> (b: bool)
    ensures
        b == (n@ == word@),
{
    let w = chars_of(word);
    seq_eq(n.as_slice(), w.as_slice())
}

fn slot_step(
    out: &mut Vec<ModelChange>,
    name: &Vec<char>,
    prev: &JsonValue,
    next: &JsonValue,
)
    ensures
        change_views(final(out)@) == change_views(old(out)@) + slot_changes(name@, *prev, *next),
{
    let ghost start = change_views(out@);
    let prev_req = flag_of(prev, "required");
    let next_req = flag_of(next, "required");
    if !prev_req && next_req {
        let reason = concat3("slot '", name, "' became required");
        push_change(out, "breaking", name, &reason);
    } else if prev_req && !next_req {
        let reason = concat3("slot '", name, "' is no longer required");
        push_change(out, "additive", name, &reason);
    }
    let ghost after_required = change_views(out@);
    if flag_of(prev, "multivalued") != flag_of(next, "multivalued") {
        let reason = concat3("slot '", name, "' multivalued changed");
        push_change(out, "breaking", name, &reason);
    }
    let ghost after_multi = change_views(out@);
    let pr = range_of(prev);
    let nr = range_of(next);
    if !same_range(&pr, &nr) {
        let p = match &pr {
            Some(x) => x.clone(),
            None => chars_of("string"),
        };
        let n = match &nr {
            Some(x) => x.clone(),
            None => chars_of("string"),
        };
        let numeric = is_one_of(&n, "integer") || is_one_of(&n, "float") || is_one_of(
            &n,
            "double",
        ) || is_one_of(&n, "decimal");
        let widening = (is_one_of(&p, "integer") && numeric && !is_one_of(&n, "integer")) || (
        is_one_of(&n, "string") && !is_one_of(&p, "string"));
        let mut reason = concat3("range of slot '", name, "");
        if widening {
            append_str(&mut reason, "' widened from ");
        } else {
            append_str(&mut reason, "' changed from ");
        }
        append_chars(&mut reason, p.as_slice());
        append_str(&mut reason, " to ");
        append_chars(&mut reason, n.as_slice());
        proof {
            assert(""@ =~= Seq::<char>::empty()) by {
                reveal_strlit("");
            }
        }
        if widening {
            push_change(out, "additive", name, &reason);
        } else {
            push_change(out, "breaking", name, &reason);
        }
    }
    assert(change_views(out@) =~= start + slot_changes(name@, *prev, *next));
}

fn slots_missing(
    out: &mut Vec<ModelChange>,
    prev: &Vec<(String, JsonValue)>,
    next: &Vec<(String, JsonValue)>,
)
    ensures
        change_views(final(out)@) == change_views(old(out)@) + added_slots(
            prev@,
            next@,
            next@.len() as int,
        ),
{
    let ghost start = change_views(out@);
    let mut i: usize = 0;
    while i < next.len()
        invariant
            i <= next@.len(),
            change_views(out@) == start + added_slots(prev@, next@, i as int),
        decreases next.len() - i,
    {
        let name = chars_of(next[i].0.as_str());
        if lookup(prev, name.as_slice()).is_none() {
            if flag_of(&next[i].1, "required") {
                let reason = concat3("new required slot '", &name, "' was added");
                push_change(out, "breaking", &name, &reason);
            } else {
                let reason = concat3("new optional slot '", &name, "' was added");
                push_change(out, "additive", &name, &reason);
            }
        }
        i = i + 1;
    }
}

/// Classifies changes between previous and next LinkML YAML documents.
pub fn classify_linkml_changes(prev_val: &JsonValue, next_val: &JsonValue) -> (changes: Vec<
    ModelChange,
>)
    ensures
        change_views(changes@) == linkml_changes(*prev_val, *next_val),
{
    let empty: Vec<(String, JsonValue)> = Vec::new();
    let mut changes: Vec<ModelChange> = Vec::new();
    let prev_classes = match members_under(prev_val, "classes") {
        Some(m) => m,
        None => &empty,
    };
    let next_classes = match members_under(next_val, "classes") {
        Some(m) => m,
        None => &empty,
    };
    let ghost pc = prev_classes@;
    let ghost nc = next_classes@;
    assert(change_views(changes@) =~= Seq::<ChangeView>::empty());
    let mut i: usize = 0;
    while i < prev_classes.len()
        invariant
            i <= pc.len(),
            pc == prev_classes@,
            nc == next_classes@,
            change_views(changes@) == classes_part(pc, nc, i as int),
        decreases prev_classes.len() - i,
    {
        classes_step(&mut changes, &prev_classes[i], next_classes);
        i = i + 1;
    }
    let ghost part_one = change_views(changes@);
    classes_missing(&mut changes, prev_classes, next_classes);

    let prev_slots = match members_under(prev_val, "slots") {
        Some(m) => m,
        None => &empty,
    };
    let next_slots = match members_under(next_val, "slots") {
        Some(m) => m,
        None => &empty,
    };
    let ghost ps = prev_slots@;
    let ghost ns = next_slots@;
    let ghost part_two = change_views(changes@);
    let mut j: usize = 0;
    while j < prev_slots.len()
        invariant
            j <= ps.len(),
            ps == prev_slots@,
            ns == next_slots@,
            change_views(changes@) == part_two + slots_part(ps, ns, j as int),
        decreases prev_slots.len() - j,
    {
        let name = chars_of(prev_slots[j].0.as_str());
        let ghost before = change_views(changes@);
        match lookup(next_slots, name.as_slice()) {
            Some(next_slot) => {
                slot_step(&mut changes, &name, &prev_slots[j].1, next_slot);
            },
            None => {
                let reason = concat3("slot '", &name, "' was removed");
                push_change(&mut changes, "breaking", &name, &reason);
            },
        }
        j = j + 1;
        assert(change_views(changes@) =~= part_two + slots_part(ps, ns, j as int));
    }
    slots_missing(&mut changes, prev_slots, next_slots);
    assert(change_views(changes@) =~= linkml_changes(*prev_val, *next_val));
    changes
}

/// The severity of a whole set of changes: the worst of them.
pub open spec fn severity_of(changes: Seq<ChangeView>) -> Seq<char> {
    if exists|i: int| 0 <= i < changes.len() && (#[trigger] changes[i]).0 == "breaking"@ {
        "breaking"@
    } else if exists|i: int| 0 <= i < changes.len() && (#[trigger] changes[i]).0 == "additive"@ {
        "additive"@
    } else {
        "none"@
    }
}

pub fn overall_severity(changes: &[ModelChange]) -> (s: &'static str)
    ensures
        s@ == severity_of(changes@.map_values(|c: ModelChange| c@)),
{
    let ghost v = changes@.map_values(|c: ModelChange| c@);
    let breaking = chars_of("breaking");
    let additive = chars_of("additive");
    let mut any_breaking = false;
    let mut any_additive = false;
    let mut i: usize = 0;
    while i < changes.len()
        invariant
            i <= changes@.len(),
            v == changes@.map_values(|c: ModelChange| c@),
            breaking@ == "breaking"@,
            additive@ == "additive"@,
            any_breaking == exists|k: int| 0 <= k < i && (#[trigger] v[k]).0 == "breaking"@,
            any_additive == exists|k: int| 0 <= k < i && (#[trigger] v[k]).0 == "additive"@,
        decreases changes.len() - i,
    {
        let sev = chars_of(changes[i].severity.as_str());
        assert(v[i as int].0 == sev@);
        if seq_eq(sev.as_slice(), breaking.as_slice()) {
            any_breaking = true;
        }
        if seq_eq(sev.as_slice(), additive.as_slice()) {
            any_additive = true;
        }
        i = i + 1;
    }
    if any_breaking {
        "breaking"
    } else if any_additive {
        "additive"
    } else {
        "none"
    }
}

// ---------------------------------------------------------------------------------------
// Versions
// ---------------------------------------------------------------------------------------

/// A model version `major.minor.patch`.
#[derive(Debug, Clone, Copy, PartialEq, Eq)]
pub struct SemVer {
    pub major: u64,
    pub minor: u64,
    pub patch: u64,
}

/// The version a change of this severity earns.
pub open spec fn bumped(current: SemVer, severity: Seq<char>) -> SemVer {
    if severity == "breaking"@ {
        SemVer { major: (current.major + 1) as u64, minor: 0, patch: 0 }
    } else if severity == "additive"@ {
        SemVer { major: current.major, minor: (current.minor + 1) as u64, patch: 0 }
    } else {
        SemVer { major: current.major, minor: current.minor, patch: (current.patch + 1) as u64 }
    }
}

pub fn bump_version(current: &SemVer, severity: &str) -> (r: Result<SemVer, ApiError>)
    requires
        current.major < u64::MAX,
        current.minor < u64::MAX,
        current.patch < u64::MAX,
    ensures
        r matches Ok(v) && v == bumped(*current, severity@),
{
    if str_is(severity, "breaking") {
        Ok(SemVer { major: current.major + 1, minor: 0, patch: 0 })
    } else if str_is(severity, "additive") {
        Ok(SemVer { major: current.major, minor: current.minor + 1, patch: 0 })
    } else {
        Ok(SemVer { major: current.major, minor: current.minor, patch: current.patch + 1 })
    }
}

fn str_is(a: &str, b: &str) -> (r: bool)
    ensures
        r == (a@ == b@),
{
    crate::text::str_eq(a, b)
}


/// One version before another, as `major.minor.patch` order them.
pub open spec fn version_before(a: SemVer, b: SemVer) -> bool {
    a.major < b.major || (a.major == b.major && (a.minor < b.minor || (a.minor == b.minor
        && a.patch < b.patch)))
}

/// A bump always moves the version up, and by the part the severity names: a breaking change
/// the major version, an additive one the minor, anything else the patch.
pub proof fn a_bump_moves_the_version_up(current: SemVer, severity: Seq<char>)
    requires
        current.major < u64::MAX,
        current.minor < u64::MAX,
        current.patch < u64::MAX,
    ensures
        version_before(current, bumped(current, severity)),
        severity == "breaking"@ ==> bumped(current, severity).major == current.major + 1,
        severity != "breaking"@ ==> bumped(current, severity).major == current.major,
{
}

/// A version as `major.minor.patch`.
pub open spec fn version_text(v: SemVer) -> Seq<char> {
    decimal(v.major as nat) + "."@ + decimal(v.minor as nat) + "."@ + decimal(v.patch as nat)
}

pub fn version_string(v: &SemVer) -> (out: Vec<char>)
    ensures
        out@ == version_text(*v),
{
    let mut out = decimal_of(v.major);
    append_str(&mut out, ".");
    let minor = decimal_of(v.minor);
    append_chars(&mut out, minor.as_slice());
    append_str(&mut out, ".");
    let patch = decimal_of(v.patch);
    append_chars(&mut out, patch.as_slice());
    out
}

/// The reasons of the breaking changes, in order.
pub open spec fn breaking_reasons(changes: Seq<ChangeView>) -> Seq<Seq<char>>
    decreases changes.len(),
{
    if changes.len() == 0 {
        Seq::empty()
    } else {
        let before = breaking_reasons(changes.drop_last());
        if changes.last().0 == "breaking"@ {
            before.push(changes.last().2)
        } else {
            before
        }
    }
}

/// The version a source is saved under: the one asked for, or the published one bumped by the
/// severity of the changes.
pub open spec fn target_of(published: SemVer, requested: Option<SemVer>, severity: Seq<char>) -> SemVer {
    match requested {
        Some(v) => v,
        None => bumped(published, severity),
    }
}

/// Whether saving would hide a breaking change under the published major version.
pub open spec fn breaks_under(published: SemVer, target: SemVer, severity: Seq<char>) -> bool {
    severity == "breaking"@ && target.major <= published.major
}

/// The severity of a new source and the version it is saved under. A breaking change asked to
/// be saved under the published major version is refused, with the version to publish it as and
/// the reason of every breaking change.
pub fn choose_version(published: &SemVer, requested: Option<SemVer>, changes: &[ModelChange]) -> (r:
    Result<(&'static str, SemVer), ApiError>)
    requires
        published.major < u64::MAX,
        published.minor < u64::MAX,
        published.patch < u64::MAX,
    ensures
        breaks_under(
            *published,
            target_of(*published, requested, severity_of(change_views(changes@))),
            severity_of(change_views(changes@)),
        ) ==> (r matches Err(ApiError::Invalid { detail, errors }) && detail@
            == "a breaking change cannot be saved under version "@ + version_text(
            target_of(*published, requested, severity_of(change_views(changes@))),
        ) + "; publish it as "@ + version_text(bumped(*published, "breaking"@)) && views(errors@)
            == breaking_reasons(change_views(changes@))),
        !breaks_under(
            *published,
            target_of(*published, requested, severity_of(change_views(changes@))),
            severity_of(change_views(changes@)),
        ) ==> (r matches Ok((s, v)) && s@ == severity_of(change_views(changes@)) && v == target_of(
            *published,
            requested,
            severity_of(change_views(changes@)),
        )),
{
    let severity = overall_severity(changes);
    let target = match requested {
        Some(v) => v,
        None => match bump_version(published, severity) {
            Ok(v) => v,
            Err(e) => return Err(e),
        },
    };
    if str_is(severity, "breaking") && target.major <= published.major {
        let ghost cv = change_views(changes@);
        let mut reasons: Vec<String> = Vec::new();
        let mut i: usize = 0;
        while i < changes.len()
            invariant
                i <= changes@.len(),
                cv == change_views(changes@),
                views(reasons@) == breaking_reasons(cv.take(i as int)),
            decreases changes.len() - i,
        {
            assert(cv.take(i + 1).drop_last() =~= cv.take(i as int));
            assert(cv.take(i + 1).last() == changes@[i as int]@);
            if str_is(changes[i].severity.as_str(), "breaking") {
                let ghost before = reasons@;
                reasons.push(changes[i].reason.clone());
                assert(views(reasons@) =~= views(before).push(changes@[i as int].reason@));
            }
            i = i + 1;
        }
        assert(cv.take(changes@.len() as int) =~= cv);
        let suggested = match bump_version(published, "breaking") {
            Ok(v) => v,
            Err(e) => return Err(e),
        };
        let mut detail: Vec<char> = chars_of("a breaking change cannot be saved under version ");
        let t = version_string(&target);
        append_chars(&mut detail, t.as_slice());
        append_str(&mut detail, "; publish it as ");
        let s = version_string(&suggested);
        append_chars(&mut detail, s.as_slice());
        return Err(ApiError::Invalid { detail: string_of(detail.as_slice()), errors: reasons });
    }
    Ok((severity, target))
}

/// The query of a source upload: the version asked for and whether it is a dry run.
pub struct SourcePutQuery {
    pub version: Option<String>,
    pub dry_run: Option<String>,
}

impl SourcePutQuery {
    /// A dry run is asked for by `All` or `true`, in any case.
    pub fn is_dry(&self) -> (b: bool)
        ensures
            b == match self.dry_run {
                Some(d) => same_ignoring_case(d@, "all"@) || same_ignoring_case(d@, "true"@),
                None => false,
            },
    {
        match &self.dry_run {
            Some(d) => {
                let c = chars_of(d.as_str());
                let all = chars_of("all");
                let yes = chars_of("true");
                eq_ignore_case(c.as_slice(), all.as_slice()) || eq_ignore_case(c.as_slice(), yes.as_slice())
            },
            None => false,
        }
    }
}

/// What saving a source would do: the severity of its changes, the changes, the version it
/// takes and what the model tools compile from it.
pub struct SourceDryRunResult {
    pub severity: String,
    pub changes: Vec<ModelChange>,
    pub version: String,
    pub artifacts: JsonValue,
}

// ---------------------------------------------------------------------------------------
// File content from the forge
// ---------------------------------------------------------------------------------------

/// The bytes a text encodes in standard base64 (the RFC 4648 alphabet, padded), `None` when it
/// is not such a text.
pub uninterp spec fn base64_standard(text: Seq<char>) -> Option<Seq<u8>>;

/// base64's `general_purpose::STANDARD.decode`. The contract names its result, a function of
/// the text alone, and claims nothing more of it.
#[verifier::external_body]
fn base64_decode(text: &str) -> (r: Option<Vec<u8>>)
    ensures
        match r {
            Some(b) => base64_standard(text@) == Some(b@),
            None => base64_standard(text@) is None,
        },
{
    base64::engine::general_purpose::STANDARD.decode(text).ok()
}

/// std's `String::from_utf8`: the text the bytes encode when they are valid UTF-8, as its
/// documentation says; `None` when they are not.
#[verifier::external_body]
fn utf8_text(bytes: Vec<u8>) -> (r: Option<String>)
    ensures
        match r {
            Some(s) => vstd::utf8::valid_utf8(bytes@) && s@ == vstd::utf8::decode_utf8(bytes@),
            None => !vstd::utf8::valid_utf8(bytes@),
        },
{
    String::from_utf8(bytes).ok()
}

/// The text without its line breaks and spaces.
pub open spec fn without_breaks(s: Seq<char>) -> Seq<char>
    decreases s.len(),
{
    if s.len() == 0 {
        s
    } else {
        let rest = without_breaks(s.drop_last());
        let c = s.last();
        if c == '\n' || c == '\r' || c == ' ' {
            rest
        } else {
            rest.push(c)
        }
    }
}

/// A decoded file reads as text: not empty, and no control character but line breaks and tabs.
pub open spec fn reads_as_text(s: Seq<char>) -> bool {
    s.len() > 0 && forall|i: int| 0 <= i < s.len() ==> !crate::text::is_control(#[trigger] s[i]) || s[i] == '\n'
        || s[i] == '\r' || s[i] == '\t'
}

/// What a file's content from the forge is: the text its base64 encodes, when it is base64 of
/// text; otherwise the content as it came.
pub open spec fn decoded_content(raw: Seq<char>) -> Seq<char> {
    match base64_standard(without_breaks(crate::text::trimmed(raw))) {
        Some(bytes) => if vstd::utf8::valid_utf8(bytes) && reads_as_text(vstd::utf8::decode_utf8(bytes)) {
            vstd::utf8::decode_utf8(bytes)
        } else {
            raw
        },
        None => raw,
    }
}

/// Decodes base64 content from the forge if it is base64 of text, or returns it verbatim.
pub fn decode_content(raw: &str) -> (r: String)
    ensures
        r@ == decoded_content(raw@),
{
    let c = chars_of(raw);
    let t = crate::text::trim_chars(c.as_slice());
    let mut cleaned: Vec<char> = Vec::new();
    let mut i: usize = 0;
    assert(t@.take(0) =~= Seq::<char>::empty());
    while i < t.len()
        invariant
            i <= t@.len(),
            cleaned@ == without_breaks(t@.take(i as int)),
        decreases t.len() - i,
    {
        assert(t@.take(i + 1).drop_last() =~= t@.take(i as int));
        let ch = t[i];
        if !(ch == '\n' || ch == '\r' || ch == ' ') {
            cleaned.push(ch);
        }
        i = i + 1;
    }
    assert(t@.take(t@.len() as int) =~= t@);
    let text = string_of(cleaned.as_slice());
    if let Some(bytes) = base64_decode(text.as_str()) {
        if let Some(s) = utf8_text(bytes) {
            let d = chars_of(s.as_str());
            let mut ok = d.len() > 0;
            let mut k: usize = 0;
            while k < d.len()
                invariant
                    k <= d@.len(),
                    ok == (d@.len() > 0 && forall|j: int| 0 <= j < k ==> !crate::text::is_control(#[trigger] d@[j])
                        || d@[j] == '\n' || d@[j] == '\r' || d@[j] == '\t'),
                decreases d.len() - k,
            {
                let ch = d[k];
                if crate::text::control(ch) && ch != '\n' && ch != '\r' && ch != '\t' {
                    ok = false;
                }
                k = k + 1;
            }
            if ok {
                return s;
            }
        }
    }
    string_of(c.as_slice())
}


// ---------------------------------------------------------------------------------------
// A document against itself
// ---------------------------------------------------------------------------------------

proof fn lemma_removed_none(class: Seq<char>, slots: Seq<Seq<char>>, n: int)
    requires
        n <= slots.len(),
    ensures
        removed_slots(class, slots, slots, n) == Seq::<ChangeView>::empty(),
    decreases n,
{
    if n > 0 {
        lemma_removed_none(class, slots, n - 1);
        assert(slots.contains(slots[n - 1]));
    }
}

proof fn lemma_classes_unchanged(pc: Seq<(String, JsonValue)>, n: int)
    requires
        crate::json::unique_keys(pc),
        n <= pc.len(),
    ensures
        classes_part(pc, pc, n) == Seq::<ChangeView>::empty(),
        added_classes(pc, pc, n) == Seq::<ChangeView>::empty(),
    decreases n,
{
    if n > 0 {
        lemma_classes_unchanged(pc, n - 1);
        crate::json::lemma_member_unique(pc, n - 1);
        let slots = strings_at(pc[n - 1].1, "slots"@);
        lemma_removed_none(pc[n - 1].0@, slots, slots.len() as int);
        assert(class_changes(pc[n - 1], pc) == Seq::<ChangeView>::empty());
        assert(classes_part(pc, pc, n) =~= Seq::<ChangeView>::empty());
    }
}

proof fn lemma_slots_unchanged(ps: Seq<(String, JsonValue)>, n: int)
    requires
        crate::json::unique_keys(ps),
        n <= ps.len(),
    ensures
        slots_part(ps, ps, n) == Seq::<ChangeView>::empty(),
        added_slots(ps, ps, n) == Seq::<ChangeView>::empty(),
    decreases n,
{
    if n > 0 {
        lemma_slots_unchanged(ps, n - 1);
        crate::json::lemma_member_unique(ps, n - 1);
        let name = ps[n - 1].0@;
        let x = ps[n - 1].1;
        assert(slot_changes(name, x, x) =~= Seq::<ChangeView>::empty());
        assert(slots_part(ps, ps, n) =~= Seq::<ChangeView>::empty());
    }
}

/// A document compared with itself reports no change, so its severity is `none`: for any
/// well-formed document, where no object names a member twice.
pub proof fn a_document_has_no_change_against_itself(v: JsonValue)
    requires
        crate::json::well_formed(v),
    ensures
        linkml_changes(v, v) == Seq::<ChangeView>::empty(),
        severity_of(linkml_changes(v, v)) == "none"@,
{
    crate::json::lemma_members_at_unique(v, "classes"@);
    crate::json::lemma_members_at_unique(v, "slots"@);
    let pc = members_at(v, "classes"@);
    let ps = members_at(v, "slots"@);
    lemma_classes_unchanged(pc, pc.len() as int);
    lemma_slots_unchanged(ps, ps.len() as int);
    assert(linkml_changes(v, v) =~= Seq::<ChangeView>::empty());
}

/// Two models without classes and with one slot of the same name each: what they differ by is
/// what that slot changes.
proof fn lemma_one_slot(
    prev: JsonValue,
    next: JsonValue,
    name: Seq<char>,
    prev_slot: JsonValue,
    next_slot: JsonValue,
)
    requires
        members_at(prev, "classes"@).len() == 0,
        members_at(next, "classes"@).len() == 0,
        members_at(prev, "slots"@).len() == 1,
        members_at(next, "slots"@).len() == 1,
        members_at(prev, "slots"@)[0].0@ == name,
        members_at(next, "slots"@)[0].0@ == name,
        members_at(prev, "slots"@)[0].1 == prev_slot,
        members_at(next, "slots"@)[0].1 == next_slot,
    ensures
        linkml_changes(prev, next) == slot_changes(name, prev_slot, next_slot),
{
    let pc = members_at(prev, "classes"@);
    let nc = members_at(next, "classes"@);
    let ps = members_at(prev, "slots"@);
    let ns = members_at(next, "slots"@);
    assert(classes_part(pc, nc, 0) == Seq::<ChangeView>::empty());
    assert(added_classes(pc, nc, 0) == Seq::<ChangeView>::empty());
    assert(slots_part(ps, ns, 0) == Seq::<ChangeView>::empty());
    assert(added_slots(ps, ns, 0) == Seq::<ChangeView>::empty());
    assert(member(ns, name) == Some(next_slot));
    assert(member(ps, name) is Some);
    assert(added_slots(ps, ns, 1) == Seq::<ChangeView>::empty());
    let here = slot_changes(name, prev_slot, next_slot);
    assert(slots_part(ps, ns, 1) =~= here);
    assert(linkml_changes(prev, next) =~= here);
}

/// Two models that differ only in the range of their one slot differ by exactly one change.
/// Going from `integer` to `float`, `double` or `decimal`, or from any range other than
/// `string` to `string`, widens what the slot accepts: the change is additive and reads
/// "range of slot 'x' widened from p to n". Every other change of range is breaking and reads
/// "range of slot 'x' changed from p to n". A slot without a range has the range `string`.
pub proof fn a_range_change_is_additive_exactly_when_it_widens(
    prev: JsonValue,
    next: JsonValue,
    name: Seq<char>,
    prev_slot: JsonValue,
    next_slot: JsonValue,
)
    requires
        members_at(prev, "classes"@).len() == 0,
        members_at(next, "classes"@).len() == 0,
        members_at(prev, "slots"@).len() == 1,
        members_at(next, "slots"@).len() == 1,
        members_at(prev, "slots"@)[0].0@ == name,
        members_at(next, "slots"@)[0].0@ == name,
        members_at(prev, "slots"@)[0].1 == prev_slot,
        members_at(next, "slots"@)[0].1 == next_slot,
        flag(prev_slot, "required"@) == flag(next_slot, "required"@),
        flag(prev_slot, "multivalued"@) == flag(next_slot, "multivalued"@),
        text_of_opt(get(prev_slot, "range"@)) != text_of_opt(get(next_slot, "range"@)),
    ensures
        ({
            let p = or_string(text_of_opt(get(prev_slot, "range"@)));
            let n = or_string(text_of_opt(get(next_slot, "range"@)));
            let widening = (p == "integer"@ && (n == "float"@ || n == "double"@ || n
                == "decimal"@)) || (n == "string"@ && p != "string"@);
            linkml_changes(prev, next) == if widening {
                seq![
                    (
                        "additive"@,
                        name,
                        "range of slot '"@ + name + "' widened from "@ + p + " to "@ + n,
                    ),
                ]
            } else {
                seq![
                    (
                        "breaking"@,
                        name,
                        "range of slot '"@ + name + "' changed from "@ + p + " to "@ + n,
                    ),
                ]
            }
        }),
{
    reveal_strlit("integer");
    reveal_strlit("float");
    reveal_strlit("double");
    reveal_strlit("decimal");
    assert("float"@ != "integer"@) by {
        assert("float"@.len() != "integer"@.len());
    }
    assert("double"@ != "integer"@) by {
        assert("double"@.len() != "integer"@.len());
    }
    assert("decimal"@ != "integer"@) by {
        assert("decimal"@[0] != "integer"@[0]);
    }
    lemma_one_slot(prev, next, name, prev_slot, next_slot);
}

/// Two models that differ only in the flags of their one slot: making it required is one
/// breaking change, "slot 'x' became required"; no longer requiring it is one additive change,
/// "slot 'x' is no longer required"; and changing whether it is multivalued is one breaking
/// change, "slot 'x' multivalued changed", reported after the first.
pub proof fn a_stricter_slot_breaks_and_a_looser_one_adds(
    prev: JsonValue,
    next: JsonValue,
    name: Seq<char>,
    prev_slot: JsonValue,
    next_slot: JsonValue,
)
    requires
        members_at(prev, "classes"@).len() == 0,
        members_at(next, "classes"@).len() == 0,
        members_at(prev, "slots"@).len() == 1,
        members_at(next, "slots"@).len() == 1,
        members_at(prev, "slots"@)[0].0@ == name,
        members_at(next, "slots"@)[0].0@ == name,
        members_at(prev, "slots"@)[0].1 == prev_slot,
        members_at(next, "slots"@)[0].1 == next_slot,
        text_of_opt(get(prev_slot, "range"@)) == text_of_opt(get(next_slot, "range"@)),
    ensures
        ({
            let was_required = bool_of_opt(get(prev_slot, "required"@)) == Some(true);
            let is_required = bool_of_opt(get(next_slot, "required"@)) == Some(true);
            let required: Seq<ChangeView> = if !was_required && is_required {
                seq![("breaking"@, name, "slot '"@ + name + "' became required"@)]
            } else if was_required && !is_required {
                seq![("additive"@, name, "slot '"@ + name + "' is no longer required"@)]
            } else {
                Seq::empty()
            };
            let multivalued: Seq<ChangeView> = if (bool_of_opt(get(prev_slot, "multivalued"@))
                == Some(true)) != (bool_of_opt(get(next_slot, "multivalued"@)) == Some(true)) {
                seq![("breaking"@, name, "slot '"@ + name + "' multivalued changed"@)]
            } else {
                Seq::empty()
            };
            linkml_changes(prev, next) == required + multivalued
        }),
{
    lemma_one_slot(prev, next, name, prev_slot, next_slot);
}


// ---------------------------------------------------------------------------------------
// What a new source writes
// ---------------------------------------------------------------------------------------

/// A source larger than the Model Tools' request limit is refused before it is read.
pub fn check_source_size(len: usize, limit: usize) -> (r: Result<(), ApiError>)
    ensures
        len <= limit ==> r is Ok,
        len > limit ==> (r matches Err(ApiError::BadRequest(m)) && m@ == "the source is larger than the "@ + decimal(
            limit as nat,
        ) + " byte limit"@),
{
    if len > limit {
        let mut m = chars_of("the source is larger than the ");
        append_chars(&mut m, decimal_of(limit as u64).as_slice());
        append_str(&mut m, " byte limit");
        return Err(ApiError::BadRequest(string_of(m.as_slice())));
    }
    Ok(())
}

/// The classes a model declares, by name.
pub open spec fn class_names(next: JsonValue) -> Set<Seq<char>> {
    Set::new(|c: Seq<char>| member(members_at(next, "classes"@), c) is Some)
}

/// A list of texts.
pub open spec fn text_items(a: Seq<JsonValue>, t: Seq<Seq<char>>) -> bool {
    a.len() == t.len() && forall|i: int| 0 <= i < a.len() ==> (#[trigger] a[i] matches JsonValue::Str(s) && s@ == t[i])
}

/// Where a model's generated artifacts live, relative to its manifest, for a major version.
pub open spec fn artifacts_of(v: JsonValue, name: Seq<char>, major: nat) -> bool {
    v matches JsonValue::Object(a) && a@.len() == 4 && crate::projects::text_member(
        a@[0],
        "jsonSchema"@,
        "./json-schema/"@ + name + ".v"@ + decimal(major) + ".json"@,
    ) && crate::projects::text_member(a@[1], "context"@, "./context/"@ + name + ".v"@ + decimal(major) + ".jsonld"@)
        && crate::projects::text_member(a@[2], "docs"@, "./docs/"@ + name + ".md"@) && crate::projects::text_member(
        a@[3],
        "example"@,
        "./examples/"@ + name + ".example.jsonld"@,
    )
}

/// The six files a new source writes, in the order they are written: the manifest, the LinkML
/// source, then the JSON Schema, the JSON-LD context, the docs and the example generated from
/// it.
pub open spec fn source_paths(project: Seq<char>, space: Seq<char>, name: Seq<char>, linkml: Seq<char>, major: nat) -> Seq<Seq<char>> {
    let dir = "projects/"@ + project + "/spaces/"@ + space + "/datamodels/"@;
    seq![
        dir + name + ".yaml"@,
        dir + linkml,
        dir + "json-schema/"@ + name + ".v"@ + decimal(major) + ".json"@,
        dir + "context/"@ + name + ".v"@ + decimal(major) + ".jsonld"@,
        dir + "docs/"@ + name + ".md"@,
        dir + "examples/"@ + name + ".example.jsonld"@,
    ]
}

fn framed_path(a: &str, b: &str, c: &str, d: &str, e: &str, f: &str, g: &str) -> (s: String)
    ensures
        s@ == a@ + b@ + c@ + d@ + e@ + f@ + g@,
{
    let mut m = chars_of(a);
    append_str(&mut m, b);
    append_str(&mut m, c);
    append_str(&mut m, d);
    append_str(&mut m, e);
    append_str(&mut m, f);
    append_str(&mut m, g);
    string_of(m.as_slice())
}

fn text_value(s: Vec<char>) -> (v: JsonValue)
    ensures
        v matches JsonValue::Str(t) && t@ == s@,
{
    JsonValue::Str(string_of(s.as_slice()))
}

/// The model's spec after a new source: its `version` the target, its `classes` the classes
/// the source declares in name order, its `artifacts` where this major version's artifacts are
/// written; every other member as it was. Beside it, the six paths the change writes.
pub fn source_update(
    spec: JsonValue,
    project: &str,
    space: &str,
    name: &str,
    linkml: &str,
    version: &SemVer,
    next: &JsonValue,
) -> (r: (JsonValue, Vec<String>))
    requires
        spec is Object || spec is Null,
    ensures
        r.0 matches JsonValue::Object(m) && {
            &&& member(m@, "version"@) matches Some(JsonValue::Str(t)) && t@ == version_text(*version)
            &&& member(m@, "classes"@) matches Some(JsonValue::Array(a)) && exists|cs: Seq<Seq<char>>|
                #[trigger] text_items(a@, cs) && crate::federation::strictly_sorted(cs) && cs.to_set() == class_names(*next)
            &&& member(m@, "artifacts"@) matches Some(art) && artifacts_of(art, name@, version.major as nat)
            &&& forall|k: Seq<char>|
                k != "version"@ && k != "classes"@ && k != "artifacts"@ ==> #[trigger] member(m@, k) == match spec {
                    JsonValue::Object(o) => member(o@, k),
                    _ => None,
                }
        },
        views(r.1@) == source_paths(project@, space@, name@, linkml@, version.major as nat),
{
    let ghost original = spec;
    let mut members: Vec<(String, JsonValue)> = match spec {
        JsonValue::Object(o) => o,
        _ => Vec::new(),
    };
    let ghost start = members@;
    proof {
        if !(original is Object) {
            assert forall|k: Seq<char>| #[trigger] member(start, k) is None by {}
        }
    }
    // The classes the source declares, each once, in name order.
    let empty: Vec<(String, JsonValue)> = Vec::new();
    let declared: &Vec<(String, JsonValue)> = match next.get_member("classes") {
        Some(JsonValue::Object(c)) => c,
        _ => &empty,
    };
    assert(declared@ == members_at(*next, "classes"@));
    let mut classes: Vec<String> = Vec::new();
    let mut i: usize = 0;
    while i < declared.len()
        invariant
            i <= declared@.len(),
            declared@ == members_at(*next, "classes"@),
            crate::federation::strictly_sorted(views(classes@)),
            forall|x: Seq<char>|
                #[trigger] views(classes@).contains(x) <==> exists|j: int| 0 <= j < i && declared@[j].0@ == x,
        decreases declared.len() - i,
    {
        let ghost before = views(classes@);
        crate::federation::add_sorted(&mut classes, &declared[i].0);
        assert forall|x: Seq<char>|
            #[trigger] views(classes@).contains(x) <==> exists|j: int| 0 <= j < i + 1 && declared@[j].0@ == x by {
            if exists|j: int| 0 <= j < i + 1 && declared@[j].0@ == x {
                let j = choose|j: int| 0 <= j < i + 1 && declared@[j].0@ == x;
                if j < i {
                    assert(before.contains(x));
                }
            }
        }
        i = i + 1;
    }
    proof {
        let cs = views(classes@);
        assert forall|x: Seq<char>| cs.to_set().contains(x) <==> class_names(*next).contains(x) by {
            if member(declared@, x) is Some {
                crate::json::lemma_member_found(declared@, x);
            }
            if exists|j: int| 0 <= j < declared@.len() && declared@[j].0@ == x {
                let j = choose|j: int| 0 <= j < declared@.len() && declared@[j].0@ == x;
                lemma_member_present(declared@, j);
            }
        }
        assert(cs.to_set() =~= class_names(*next));
    }
    let mut items: Vec<JsonValue> = Vec::new();
    let mut k: usize = 0;
    while k < classes.len()
        invariant
            k <= classes@.len(),
            text_items(items@, views(classes@).take(k as int)),
        decreases classes.len() - k,
    {
        items.push(JsonValue::Str(classes[k].clone()));
        proof {
            let t = views(classes@).take(k + 1);
            assert forall|q: int| 0 <= q < items@.len() implies (#[trigger] items@[q] matches JsonValue::Str(s) && s@ == t[q]) by {
                if q < k {
                    assert(views(classes@).take(k as int)[q] == t[q]);
                }
            }
        }
        k = k + 1;
    }
    assert(views(classes@).take(classes@.len() as int) =~= views(classes@));
    let ghost cs = views(classes@);
    let version_value = text_value(version_string(version));
    let major = decimal_of(version.major);
    let major_text = string_of(major.as_slice());
    let mut art: Vec<(String, JsonValue)> = Vec::new();
    art.push((string_of(chars_of("jsonSchema").as_slice()), JsonValue::Str(framed_path("./json-schema/", name, ".v", major_text.as_str(), ".json", "", ""))));
    art.push((string_of(chars_of("context").as_slice()), JsonValue::Str(framed_path("./context/", name, ".v", major_text.as_str(), ".jsonld", "", ""))));
    art.push((string_of(chars_of("docs").as_slice()), JsonValue::Str(framed_path("./docs/", name, ".md", "", "", "", ""))));
    art.push((string_of(chars_of("example").as_slice()), JsonValue::Str(framed_path("./examples/", name, ".example.jsonld", "", "", "", ""))));
    proof {
        reveal_strlit("");
        assert(""@ =~= Seq::<char>::empty());
    }
    let ghost artifacts = JsonValue::Object(art);
    assert(artifacts_of(artifacts, name@, version.major as nat));
    proof {
        reveal_strlit("version");
        reveal_strlit("classes");
        reveal_strlit("artifacts");
        assert("version"@[0] != "classes"@[0]);
        assert("version"@[0] != "artifacts"@[0]);
        assert("classes"@[0] != "artifacts"@[0]);
    }
    set_member(&mut members, "version", version_value);
    set_member(&mut members, "classes", JsonValue::Array(items));
    set_member(&mut members, "artifacts", JsonValue::Object(art));
    assert(member(members@, "version"@) == Some(version_value));
    assert(member(members@, "artifacts"@) == Some(artifacts));
    assert(text_items(items@, cs));
    assert(member(members@, "classes"@) == Some(JsonValue::Array(items)));
    assert(forall|k: Seq<char>|
        k != "version"@ && k != "classes"@ && k != "artifacts"@ ==> #[trigger] member(members@, k) == member(start, k));
    let dir = framed_path("projects/", project, "/spaces/", space, "/datamodels/", "", "");
    let mut paths: Vec<String> = Vec::new();
    paths.push(framed_path(dir.as_str(), name, ".yaml", "", "", "", ""));
    paths.push(framed_path(dir.as_str(), linkml, "", "", "", "", ""));
    paths.push(framed_path(dir.as_str(), "json-schema/", name, ".v", major_text.as_str(), ".json", ""));
    paths.push(framed_path(dir.as_str(), "context/", name, ".v", major_text.as_str(), ".jsonld", ""));
    paths.push(framed_path(dir.as_str(), "docs/", name, ".md", "", "", ""));
    paths.push(framed_path(dir.as_str(), "examples/", name, ".example.jsonld", "", "", ""));
    assert(views(paths@) =~= source_paths(project@, space@, name@, linkml@, version.major as nat));
    assert forall|k: Seq<char>|
        k != "version"@ && k != "classes"@ && k != "artifacts"@ implies #[trigger] member(members@, k) == match original {
            JsonValue::Object(o) => member(o@, k),
            _ => None,
        } by {
        assert(member(members@, k) == member(start, k));
    }
    assert(crate::federation::strictly_sorted(cs) && cs.to_set() == class_names(*next));
    let ghost arr = JsonValue::Array(items);
    assert(member(members@, "classes"@) == Some(arr));
    assert(arr matches JsonValue::Array(a) && text_items(a@, cs));
    assert(arr matches JsonValue::Array(a) && exists|cs2: Seq<Seq<char>>|
                #[trigger] text_items(a@, cs2) && crate::federation::strictly_sorted(cs2) && cs2.to_set() == class_names(*next));
    let out = JsonValue::Object(members);
    assert(out matches JsonValue::Object(m) && member(m@, "version"@) matches Some(JsonValue::Str(t)) && t@ == version_text(*version));
    assert(out matches JsonValue::Object(m) && member(m@, "classes"@) matches Some(JsonValue::Array(a)) && exists|cs2: Seq<Seq<char>>|
                #[trigger] text_items(a@, cs2) && crate::federation::strictly_sorted(cs2) && cs2.to_set() == class_names(*next));
    assert(out matches JsonValue::Object(m) && member(m@, "artifacts"@) matches Some(art2) && artifacts_of(art2, name@, version.major as nat));
    (out, paths)
}

proof fn lemma_member_present(m: Seq<(String, JsonValue)>, j: int)
    requires
        0 <= j < m.len(),
    ensures
        member(m, m[j].0@) is Some,
    decreases m.len(),
{
    if j > 0 && m[0].0@ != m[j].0@ {
        assert(m.drop_first()[j - 1] == m[j]);
        lemma_member_present(m.drop_first(), j - 1);
    }
}

} // verus!
