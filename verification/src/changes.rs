//! Change proposals: the ids and branch names they travel under, what a approver reads of
//! them, and the checks an approval passes before anything is merged.

use vstd::prelude::*;
use crate::change::{rank, riskier, riskiest, Lane, Operation};
use crate::error::ApiError;
use crate::json::JsonValue;
use crate::mutate::{branch_of, hex_fixed, operation_word};
use crate::text::{
    ascii_lower, hex_char, lemma_join_split, lemma_split_concat, lemma_split_nonempty,
    lemma_split_whole,
    append_chars, append_str, chars_of, eq_ignore_case, find_last, has_prefix, hex_digit,
    hex_value, hex_value_of, is_hex_digit, is_lower_hex, join, join_range, last_index,
    lemma_last_index, lower_hex, same_ignoring_case, seq_eq, slice_of, split, split_chars,
    starts_with, str_eq, string_of, trim_chars, trimmed, ends_with,
};

verus! {

// ---------------------------------------------------------------------------------------
// Change ids
// ---------------------------------------------------------------------------------------

/// The value of a string of hexadecimal digits.
pub open spec fn hex_number(s: Seq<char>) -> nat
    decreases s.len(),
{
    if s.len() == 0 {
        0
    } else {
        16 * hex_number(s.drop_last()) + hex_value(s.last()) as nat
    }
}

pub open spec fn pow16(n: nat) -> nat
    decreases n,
{
    if n == 0 {
        1
    } else {
        16 * pow16((n - 1) as nat)
    }
}

/// The eight digits after `chg-`, when the id is well formed.
pub open spec fn change_id_digits(id: Seq<char>) -> Option<Seq<char>> {
    if starts_with(id, "chg-"@) {
        let hex = id.subrange("chg-"@.len() as int, id.len() as int);
        if hex.len() == 8 && forall|i: int| 0 <= i < hex.len() ==> is_lower_hex(#[trigger] hex[i]) {
            Some(hex)
        } else {
            None
        }
    } else {
        None
    }
}

pub open spec fn invalid_change_id(id: Seq<char>) -> Seq<char> {
    "invalid change id '"@ + id + "'; expected 'chg-' followed by 8 lowercase hex digits"@
}

/// Validates and parses `{id}` formatted as `chg-` plus eight lowercase hex digits.
pub fn parse_change_id(id: &str) -> (r: Result<u64, ApiError>)
    ensures
        match r {
            Ok(n) => change_id_digits(id@) is Some && n as nat == hex_number(
                change_id_digits(id@)->0,
            ),
            Err(e) => change_id_digits(id@) is None && (e matches ApiError::BadRequest(m) && m@
                == invalid_change_id(id@)),
        },
{
    let s = chars_of(id);
    let prefix = chars_of("chg-");
    if !has_prefix(s.as_slice(), prefix.as_slice()) {
        return Err(invalid_change_id_error(id));
    }
    let hex = slice_of(s.as_slice(), prefix.len(), s.len());
    if hex.len() != 8 {
        return Err(invalid_change_id_error(id));
    }
    let mut v: u64 = 0;
    let mut i: usize = 0;
    assert(hex@.subrange(0, 0) =~= Seq::<char>::empty());
    while i < 8
        invariant
            i <= 8,
            hex@.len() == 8,
            starts_with(id@, "chg-"@),
            hex@ == id@.subrange("chg-"@.len() as int, id@.len() as int),
            forall|k: int| 0 <= k < i ==> is_lower_hex(#[trigger] hex@[k]),
            v as nat == hex_number(hex@.subrange(0, i as int)),
            v < pow16(i as nat),
            pow16(i as nat) <= 0x1_0000_0000,
        decreases 8 - i,
    {
        if !lower_hex(hex[i]) {
            return Err(invalid_change_id_error(id));
        }
        let d = hex_value_of(hex[i]);
        assert(hex@.subrange(0, i + 1).drop_last() =~= hex@.subrange(0, i as int));
        proof {
            reveal_with_fuel(pow16, 9);
            assert(pow16((i + 1) as nat) == 16 * pow16(i as nat));
            if i < 8 {
                assert(i + 1 <= 8);
                assert(pow16((i + 1) as nat) <= 0x1_0000_0000) by {
                    assert(pow16(0) == 1);
                    assert(pow16(8) == 0x1_0000_0000);
                    lemma_pow16_grows((i + 1) as nat, 8);
                }
            }
        }
        v = v * 16 + d as u64;
        i = i + 1;
    }
    assert(hex@.subrange(0, 8) =~= hex@);
    Ok(v)
}

proof fn lemma_pow16_grows(a: nat, b: nat)
    requires
        a <= b,
    ensures
        pow16(a) <= pow16(b),
    decreases b,
{
    if a < b {
        lemma_pow16_grows(a, (b - 1) as nat);
    }
}

fn invalid_change_id_error(id: &str) -> (e: ApiError)
    ensures
        e matches ApiError::BadRequest(m) && m@ == invalid_change_id(id@),
{
    let mut m = chars_of("invalid change id '");
    append_str(&mut m, id);
    append_str(&mut m, "'; expected 'chg-' followed by 8 lowercase hex digits");
    ApiError::BadRequest(string_of(m.as_slice()))
}

// ---------------------------------------------------------------------------------------
// Branch names
// ---------------------------------------------------------------------------------------

/// Parsed components from a `portal/{op}-{kind}-{name}-{hash}` branch.
#[derive(Debug)]
pub struct BranchInfo {
    pub operation: Operation,
    pub kind_lower: String,
    pub resource_name: String,
    pub hash: String,
}

/// The operation a branch's first segment names.
pub open spec fn operation_named(s: Seq<char>) -> Option<Operation> {
    if s == "create"@ {
        Some(Operation::Create)
    } else if s == "update"@ {
        Some(Operation::Update)
    } else if s == "delete"@ {
        Some(Operation::Delete)
    } else {
        None
    }
}

/// A retry's nonce: eight hexadecimal digits, either case.
pub open spec fn is_nonce(n: Seq<char>) -> bool {
    n.len() == 8 && forall|i: int| 0 <= i < n.len() ==> is_hex_digit(#[trigger] n[i])
}

/// The branch after `portal/`, without the `_{nonce}` a retry after a rejection carries.
pub open spec fn without_nonce(rest: Seq<char>) -> Seq<char> {
    let k = last_index(rest, '_');
    if k >= 0 && is_nonce(rest.subrange(k + 1, rest.len() as int)) {
        rest.subrange(0, k)
    } else {
        rest
    }
}

pub open spec fn drop_prefix(s: Seq<char>, p: Seq<char>) -> Seq<char> {
    s.subrange(p.len() as int, s.len() as int)
}

/// `(operation, kind, name, hash)` of a branch the Portal opened, or nothing.
pub open spec fn branch_parts(branch: Seq<char>) -> Option<(Operation, Seq<char>, Seq<char>, Seq<char>)> {
    let clean = if starts_with(branch, "refs/heads/"@) {
        drop_prefix(branch, "refs/heads/"@)
    } else {
        branch
    };
    if !starts_with(clean, "portal/"@) {
        None
    } else {
        let parts = split(without_nonce(drop_prefix(clean, "portal/"@)), '-');
        if parts.len() < 4 {
            None
        } else {
            match operation_named(parts[0]) {
                None => None,
                Some(op) => {
                    let name = join(parts.subrange(2, parts.len() - 1), "-"@);
                    if name.len() == 0 {
                        None
                    } else {
                        Some((op, parts[1], name, parts.last()))
                    }
                },
            }
        }
    }
}

fn nonce(n: &[char]) -> (b: bool)
    ensures
        b == is_nonce(n@),
{
    if n.len() != 8 {
        return false;
    }
    let mut i: usize = 0;
    while i < n.len()
        invariant
            i <= n@.len(),
            forall|k: int| 0 <= k < i ==> is_hex_digit(#[trigger] n@[k]),
        decreases n.len() - i,
    {
        if !hex_digit(n[i]) {
            return false;
        }
        i = i + 1;
    }
    true
}

fn strip_nonce(rest: Vec<char>) -> (out: Vec<char>)
    ensures
        out@ == without_nonce(rest@),
{
    proof {
        lemma_last_index(rest@, '_');
    }
    match find_last(rest.as_slice(), '_') {
        Some(k) => {
            let n = rest.len();
            assert(k < n);
            let after = k + 1;
            let tail = slice_of(rest.as_slice(), after, n);
            if nonce(tail.as_slice()) {
                slice_of(rest.as_slice(), 0, k)
            } else {
                rest
            }
        },
        None => rest,
    }
}

fn operation_of(s: &[char]) -> (r: Option<Operation>)
    ensures
        r == operation_named(s@),
{
    let create = chars_of("create");
    let update = chars_of("update");
    let delete = chars_of("delete");
    if seq_eq(s, create.as_slice()) {
        Some(Operation::Create)
    } else if seq_eq(s, update.as_slice()) {
        Some(Operation::Update)
    } else if seq_eq(s, delete.as_slice()) {
        Some(Operation::Delete)
    } else {
        None
    }
}

/// The operation, kind, name and hash of a branch the Portal opened for a change.
pub fn parse_branch_name(branch: &str) -> (r: Option<BranchInfo>)
    ensures
        match r {
            Some(b) => branch_parts(branch@) == Some(
                (b.operation, b.kind_lower@, b.resource_name@, b.hash@),
            ),
            None => branch_parts(branch@) is None,
        },
{
    let b = chars_of(branch);
    let heads = chars_of("refs/heads/");
    let clean = if has_prefix(b.as_slice(), heads.as_slice()) {
        slice_of(b.as_slice(), heads.len(), b.len())
    } else {
        b
    };
    let portal = chars_of("portal/");
    if !has_prefix(clean.as_slice(), portal.as_slice()) {
        return None;
    }
    let rest = strip_nonce(slice_of(clean.as_slice(), portal.len(), clean.len()));
    let parts = split_chars(rest.as_slice(), '-');
    let ghost sp = split(rest@, '-');
    if parts.len() < 4 {
        return None;
    }
    assert(parts@[0]@ == sp[0]);
    assert(parts@[1]@ == sp[1]);
    assert(parts@[parts@.len() - 1]@ == sp.last());
    let op = match operation_of(parts[0].as_slice()) {
        Some(op) => op,
        None => return None,
    };
    let dash = chars_of("-");
    let name = join_range(&parts, 2, parts.len() - 1, dash.as_slice());
    assert(parts@.map_values(|p: Vec<char>| p@) =~= sp);
    if name.len() == 0 {
        return None;
    }
    Some(
        BranchInfo {
            operation: op,
            kind_lower: string_of(parts[1].as_slice()),
            resource_name: string_of(name.as_slice()),
            hash: string_of(parts[parts.len() - 1].as_slice()),
        },
    )
}

// ---------------------------------------------------------------------------------------
// What a approver reads
// ---------------------------------------------------------------------------------------

/// One field a plan changes, with its value before and after.
pub struct FieldChange {
    pub path: String,
    pub from: Option<JsonValue>,
    pub to: Option<JsonValue>,
}

/// The field names whose values are never shown: every name a credential goes by.
pub open spec fn sensitive_name(s: Seq<char>) -> bool {
    crate::mutate::is_secret_key(s)
}

/// The last segment of a field path, without an index: `spec.auth[0].apiKey` gives `apiKey`.
pub open spec fn field_name(path: Seq<char>) -> Seq<char> {
    split(split(path, '.').last(), '[')[0]
}

/// A value after redaction: a present value of a sensitive field is replaced by the string
/// `[REDACTED]`, an absent one stays absent.
pub open spec fn redacted_value(sensitive: bool, before: Option<JsonValue>, after: Option<JsonValue>) -> bool {
    if sensitive && before is Some {
        after matches Some(JsonValue::Str(s)) && s@ == "[REDACTED]"@
    } else {
        after == before
    }
}

fn sensitive(name: &[char]) -> (b: bool)
    ensures
        b == sensitive_name(name@),
{
    crate::mutate::secret_key(string_of(name).as_str())
}

fn redaction() -> (v: JsonValue)
    ensures
        v matches JsonValue::Str(s) && s@ == "[REDACTED]"@,
{
    JsonValue::Str(string_of(chars_of("[REDACTED]").as_slice()))
}

/// Replaces sensitive field values with `"[REDACTED]"`: a field is sensitive when the last
/// segment of its path, without an index, is one of the names secrets go by.
pub fn redact(fields: Vec<FieldChange>) -> (out: Vec<FieldChange>)
    ensures
        out@.len() == fields@.len(),
        forall|i: int|
            0 <= i < fields@.len() ==> {
                let f = #[trigger] fields@[i];
                let g = out@[i];
                let s = sensitive_name(field_name(f.path@));
                &&& g.path@ == f.path@
                &&& redacted_value(s, f.from, g.from)
                &&& redacted_value(s, f.to, g.to)
            },
{
    let ghost input = fields@;
    let mut rest = fields;
    let mut out: Vec<FieldChange> = Vec::new();
    let n = rest.len();
    let mut i: usize = 0;
    while i < n
        invariant
            i <= n == input.len(),
            rest@.len() == n - i,
            forall|k: int| 0 <= k < rest@.len() ==> #[trigger] rest@[k] == input[i + k],
            out@.len() == i,
            forall|k: int|
                0 <= k < i ==> {
                    let f = #[trigger] input[k];
                    let g = out@[k];
                    let s = sensitive_name(field_name(f.path@));
                    &&& g.path@ == f.path@
                    &&& redacted_value(s, f.from, g.from)
                    &&& redacted_value(s, f.to, g.to)
                },
        decreases n - i,
    {
        let ghost before = rest@;
        let mut f = rest.remove(0);
        assert(f == input[i as int]);
        assert forall|k: int| 0 <= k < rest@.len() implies #[trigger] rest@[k] == input[i + 1 + k] by {
            assert(rest@[k] == before[k + 1]);
        }
        let p = chars_of(f.path.as_str());
        let segments = split_chars(p.as_slice(), '.');
        proof {
            crate::text::lemma_split_nonempty(p@, '.');
        }
        let last = &segments[segments.len() - 1];
        assert(last@ == split(p@, '.').last());
        let pieces = split_chars(last.as_slice(), '[');
        proof {
            crate::text::lemma_split_nonempty(last@, '[');
        }
        assert(pieces@[0]@ == field_name(f.path@));
        if sensitive(pieces[0].as_slice()) {
            if f.from.is_some() {
                f.from = Some(redaction());
            }
            if f.to.is_some() {
                f.to = Some(redaction());
            }
        }
        out.push(f);
        i = i + 1;
    }
    out
}

// ---------------------------------------------------------------------------------------
// Approving
// ---------------------------------------------------------------------------------------

/// Who presses approve: a person at the Portal's button, or an operation of the registry, which
/// an agent calls on a person's behalf.
#[derive(Debug, Clone, Copy, PartialEq, Eq, Structural)]
pub enum ApprovedBy {
    Person,
    Operation,
}

/// Human author attributed on the change proposal.
#[derive(Debug)]
pub struct ChangeAuthor {
    pub name: String,
    pub email: Option<String>,
}

/// Request body for approving or rejecting a change proposal.
#[derive(Debug)]
pub struct ApproveBody {
    pub confirm: Option<String>,
    /// Why a change is rejected; written on the merge request beside who rejected it.
    pub reason: Option<String>,
}

/// One file of the merge request behind a change, with what it does and the lane it alone
/// would take.
#[derive(Debug)]
pub struct ChangeFile {
    /// Path in the configuration repository.
    pub path: String,
    /// The manifest's kind, or the kind the directory names for a native file beside one.
    pub kind: String,
    pub operation: Operation,
    pub lane: Lane,
}

pub open spec fn opt_chars(s: Option<String>) -> Option<Seq<char>> {
    match s {
        Some(x) => Some(x@),
        None => None,
    }
}

/// Whether the person approving wrote the change: by e-mail when the forge knows the author's,
/// by name otherwise.
pub open spec fn authored(
    author_name: Seq<char>,
    author_email: Option<Seq<char>>,
    email: Option<Seq<char>>,
    name: Option<Seq<char>>,
    username: Seq<char>,
) -> bool {
    match (author_email, email) {
        (Some(pe), Some(ue)) if trimmed(pe).len() > 0 => same_ignoring_case(pe, trimmed(ue)),
        _ => {
            let user_name = match name {
                Some(n) => n,
                None => username,
            };
            same_ignoring_case(author_name, user_name) || same_ignoring_case(author_name, username)
        },
    }
}

/// Whether the person approving wrote the change.
pub fn is_author(author: &ChangeAuthor, email: Option<&str>, name: Option<&str>, username: &str) -> (b: bool)
    ensures
        b == authored(
            author.name@,
            opt_chars(author.email),
            match email {
                Some(e) => Some(e@),
                None => None,
            },
            match name {
                Some(n) => Some(n@),
                None => None,
            },
            username@,
        ),
{
    match (&author.email, email) {
        (Some(pe), Some(ue)) => {
            let p = chars_of(pe.as_str());
            let pt = trim_chars(p.as_slice());
            if pt.len() > 0 {
                let u = chars_of(ue);
                let ut = trim_chars(u.as_slice());
                return eq_ignore_case(p.as_slice(), ut.as_slice());
            }
        },
        _ => {},
    }
    let a = chars_of(author.name.as_str());
    let user_name = match name {
        Some(n) => chars_of(n),
        None => chars_of(username),
    };
    let u = chars_of(username);
    eq_ignore_case(a.as_slice(), user_name.as_slice()) || eq_ignore_case(a.as_slice(), u.as_slice())
}

/// The lane a change is approved in: red for a deletion, the head manifest's own lane
/// otherwise (yellow when there is none), raised to the riskiest file of the merge request.
pub open spec fn change_lane(operation: Operation, head_lane: Option<Lane>, bundle_lane: Lane) -> Lane {
    let own = if operation == Operation::Delete {
        Lane::Red
    } else {
        match head_lane {
            Some(l) => l,
            None => Lane::Yellow,
        }
    };
    riskier(own, bundle_lane)
}

pub fn lane_of(operation: Operation, head_lane: Option<Lane>, bundle_lane: Lane) -> (l: Lane)
    ensures
        l == change_lane(operation, head_lane, bundle_lane),
{
    let own = match operation {
        Operation::Delete => Lane::Red,
        _ => match head_lane {
            Some(l) => l,
            None => Lane::Yellow,
        },
    };
    riskiest(own, bundle_lane)
}

pub open spec fn self_approval_message() -> Seq<char> {
    "proposal author cannot approve their own change (AG-11); an administrator of its kind may, in the Portal (PF-58)"@
}

pub open spec fn red_lane_message(name: Seq<char>) -> Seq<char> {
    "red lane change requires confirm to be '"@ + name + "' (CC-19, CC-39)"@
}

/// Whether an approval is one the author may not make: an author approves their own change
/// only at the button and only as an administrator of its kind.
pub open spec fn refused_as_author(is_author: bool, by: ApprovedBy, administers: bool) -> bool {
    is_author && !(by == ApprovedBy::Person && administers)
}

/// Whether a red-lane change lacks the confirmation its name gives.
pub open spec fn unconfirmed(lane: Lane, confirm: Option<Seq<char>>, name: Seq<char>) -> bool {
    lane == Lane::Red && confirm != Some(name)
}

/// The checks an approval passes once the change is loaded: the author's own approval first,
/// then the confirmation a red-lane change needs.
pub fn check_approval(
    is_author: bool,
    by: ApprovedBy,
    administers: bool,
    lane: Lane,
    confirm: Option<&str>,
    name: &str,
) -> (r: Result<(), ApiError>)
    ensures
        refused_as_author(is_author, by, administers) ==> (r matches Err(ApiError::SelfApproval(m))
            && m@ == self_approval_message()),
        !refused_as_author(is_author, by, administers) && unconfirmed(
            lane,
            match confirm {
                Some(c) => Some(c@),
                None => None,
            },
            name@,
        ) ==> (r matches Err(ApiError::BadRequest(m)) && m@ == red_lane_message(name@)),
        !refused_as_author(is_author, by, administers) && !unconfirmed(
            lane,
            match confirm {
                Some(c) => Some(c@),
                None => None,
            },
            name@,
        ) ==> r is Ok,
        lane == Lane::Red && r is Ok ==> (confirm is Some && confirm.unwrap()@ == name@),
        is_author && by == ApprovedBy::Operation ==> r is Err,
        is_author && !administers ==> r is Err,
        !is_author && lane != Lane::Red ==> r is Ok,
        lane == Lane::Red && !refused_as_author(is_author, by, administers) && confirm is Some
            && confirm.unwrap()@ != name@ ==> (r matches Err(ApiError::BadRequest(m)) && m@
            == red_lane_message(name@)),
{
    let at_button = match by {
        ApprovedBy::Person => true,
        ApprovedBy::Operation => false,
    };
    if is_author && !(at_button && administers) {
        let m = chars_of(
            "proposal author cannot approve their own change (AG-11); an administrator of its kind may, in the Portal (PF-58)",
        );
        return Err(ApiError::SelfApproval(string_of(m.as_slice())));
    }
    let confirmed = match confirm {
        Some(c) => str_eq(c, name),
        None => false,
    };
    let red = match lane {
        Lane::Red => true,
        _ => false,
    };
    if red && !confirmed {
        let mut m = chars_of("red lane change requires confirm to be '");
        append_str(&mut m, name);
        append_str(&mut m, "' (CC-19, CC-39)");
        return Err(ApiError::BadRequest(string_of(m.as_slice())));
    }
    Ok(())
}

/// A red-lane change is approved only with a confirmation that names it exactly: a
/// confirmation naming anything else, or none, leaves it unconfirmed, while a change of any
/// other lane needs none.
pub proof fn a_red_lane_change_needs_its_own_name(
    lane: Lane,
    confirm: Option<Seq<char>>,
    name: Seq<char>,
)
    ensures
        forall|c: Seq<char>| c != name ==> #[trigger] unconfirmed(Lane::Red, Some(c), name),
        unconfirmed(Lane::Red, None, name),
        !unconfirmed(Lane::Red, Some(name), name),
        lane != Lane::Red ==> !unconfirmed(lane, confirm, name),
{
}

/// The message the merge commit of an approved change carries.
pub open spec fn merge_message_of(
    id: Seq<char>,
    title: Seq<char>,
    approver: Seq<char>,
    kind: Seq<char>,
    by_author: bool,
) -> Seq<char> {
    let head = "Merge change proposal "@ + id + ": "@ + title + "\n\nApproved in the Portal by "@
        + approver;
    if by_author {
        head + ", its author, as an administrator of "@ + kind + " (PF-58)"@
    } else {
        head
    }
}

pub fn merge_message(id: &str, title: &str, approver: &str, kind: &str, by_author: bool) -> (m: String)
    ensures
        m@ == merge_message_of(id@, title@, approver@, kind@, by_author),
{
    let mut m = chars_of("Merge change proposal ");
    append_str(&mut m, id);
    append_str(&mut m, ": ");
    append_str(&mut m, title);
    append_str(&mut m, "\n\nApproved in the Portal by ");
    append_str(&mut m, approver);
    if by_author {
        append_str(&mut m, ", its author, as an administrator of ");
        append_str(&mut m, kind);
        append_str(&mut m, " (PF-58)");
    }
    string_of(m.as_slice())
}

/// The comment a rejection leaves on the merge request: who rejected it, and why when a
/// reason with more than whitespace was given.
pub open spec fn rejection_comment_of(rejecter: Seq<char>, reason: Option<Seq<char>>) -> Seq<char> {
    let head = "Change proposal rejected in the Portal by "@ + rejecter;
    match reason {
        Some(r) if trimmed(r).len() > 0 => head + ": "@ + trimmed(r),
        _ => head,
    }
}

pub fn rejection_comment(rejecter: &str, reason: Option<&str>) -> (c: String)
    ensures
        c@ == rejection_comment_of(
            rejecter@,
            match reason {
                Some(r) => Some(r@),
                None => None,
            },
        ),
{
    let mut m = chars_of("Change proposal rejected in the Portal by ");
    append_str(&mut m, rejecter);
    match reason {
        Some(r) => {
            let rc = chars_of(r);
            let t = trim_chars(rc.as_slice());
            if t.len() > 0 {
                append_str(&mut m, ": ");
                append_chars(&mut m, t.as_slice());
            }
        },
        None => {},
    }
    string_of(m.as_slice())
}


// ---------------------------------------------------------------------------------------
// Branch names round trip
// ---------------------------------------------------------------------------------------

proof fn lemma_hex_fixed(n: nat, width: nat)
    ensures
        hex_fixed(n, width).len() == width,
        forall|i: int| 0 <= i < width ==> is_lower_hex(#[trigger] hex_fixed(n, width)[i]),
    decreases width,
{
    if width > 0 {
        lemma_hex_fixed(n / 16, (width - 1) as nat);
        let d = n % 16;
        assert(is_lower_hex(hex_char(d)));
        assert forall|i: int| 0 <= i < width implies is_lower_hex(#[trigger] hex_fixed(n, width)[i]) by {
            if i < width - 1 {
                assert(hex_fixed(n, width)[i] == hex_fixed(n / 16, (width - 1) as nat)[i]);
            }
        }
    }
}

proof fn lemma_no_char(s: Seq<char>, c: char, p: spec_fn(char) -> bool)
    requires
        !p(c),
        forall|i: int| 0 <= i < s.len() ==> p(#[trigger] s[i]),
    ensures
        !s.contains(c),
{
    if s.contains(c) {
        let k = choose|k: int| 0 <= k < s.len() && s[k] == c;
        assert(p(s[k]));
    }
}

/// What `branch_name` writes is what `parse_branch_name` reads back: the operation, the kind
/// in lower case, the name, and the eight hexadecimal digits taken from the hash, for a kind
/// without a `-` and a name that is not empty. (A kind with a `-` would be read as a kind and
/// the start of the name.)
pub proof fn branch_names_round_trip(kind: Seq<char>, name: Seq<char>, operation: Operation, hash: u64)
    requires
        !kind.contains('-'),
        name.len() > 0,
    ensures
        branch_parts(branch_of(kind, name, operation, hash)) == Some(
            (
                operation,
                kind.map_values(|c: char| ascii_lower(c)),
                name,
                hex_fixed(hash as nat / 0x1_0000_0000, 8),
            ),
        ),
{
    reveal_strlit("portal/");
    reveal_strlit("refs/heads/");
    reveal_strlit("-");
    reveal_strlit("create");
    reveal_strlit("update");
    reveal_strlit("delete");
    let op = operation_word(operation);
    let k = kind.map_values(|c: char| ascii_lower(c));
    let hx = hex_fixed(hash as nat / 0x1_0000_0000, 8);
    let dash = seq!['-'];
    assert("-"@ =~= dash);
    let b = branch_of(kind, name, operation, hash);
    let tail = k + dash + (name + dash + hx);
    let rest = op + dash + tail;
    assert(b =~= "portal/"@ + rest);
    // Not under `refs/heads/`, and under `portal/`.
    assert(b[0] == 'p');
    assert(!starts_with(b, "refs/heads/"@)) by {
        if starts_with(b, "refs/heads/"@) {
            assert(b.subrange(0, 11)[0] == b[0]);
        }
    }
    assert(b.subrange(0, 7) =~= "portal/"@);
    assert(drop_prefix(b, "portal/"@) =~= rest);
    // No nonce: whatever follows a `_` holds the final `-` and the eight digits.
    lemma_hex_fixed(hash as nat / 0x1_0000_0000, 8);
    lemma_last_index(rest, '_');
    let p = last_index(rest, '_');
    let n = rest.len();
    assert(rest[n - 9] == '-');
    assert forall|i: int| n - 8 <= i < n implies rest[i] != '_' by {
        assert(rest[i] == hx[i - (n - 8)]);
        assert(is_lower_hex(hx[i - (n - 8)]));
    }
    if p >= 0 {
        assert(p < n - 9);
        assert(!is_nonce(rest.subrange(p + 1, n as int)));
    }
    assert(without_nonce(rest) == rest);
    // The pieces: the operation, the kind, the pieces of the name, the digits.
    assert(!op.contains('-')) by {
        match operation {
            Operation::Create => {
                lemma_no_char(op, '-', |c: char| 'a' <= c && c <= 'z');
            },
            Operation::Update => {
                lemma_no_char(op, '-', |c: char| 'a' <= c && c <= 'z');
            },
            Operation::Delete => {
                lemma_no_char(op, '-', |c: char| 'a' <= c && c <= 'z');
            },
        }
    }
    assert(!k.contains('-')) by {
        if k.contains('-') {
            let j = choose|j: int| 0 <= j < k.len() && k[j] == '-';
            assert(ascii_lower(kind[j]) == '-');
            assert(kind[j] == '-');
            assert(kind.contains('-'));
        }
    }
    assert(!hx.contains('-')) by {
        lemma_no_char(hx, '-', |c: char| is_lower_hex(c));
    }
    lemma_split_concat(op, tail, '-');
    lemma_split_concat(k, name + dash + hx, '-');
    lemma_split_concat(name, hx, '-');
    lemma_split_whole(op, '-');
    lemma_split_whole(k, '-');
    lemma_split_whole(hx, '-');
    lemma_split_nonempty(name, '-');
    let sn = split(name, '-');
    let parts = split(rest, '-');
    assert(parts =~= seq![op] + (seq![k] + (sn + seq![hx])));
    assert(parts.len() >= 4);
    assert(parts[0] == op);
    assert(parts[1] == k);
    assert(parts.last() == hx);
    assert(parts.subrange(2, parts.len() - 1) =~= sn);
    lemma_join_split(name, '-');
    assert(operation_named(op) == Some(operation)) by {
        assert("create"@[0] == 'c');
        assert("update"@[0] == 'u');
        assert("delete"@[0] == 'd');
    }
}


/// A deletion is always in the red lane, and no file of the merge request lowers a change's
/// lane: the lane is at least as risky as the change's own and as the riskiest file's.
pub proof fn lanes_only_rise(operation: Operation, head_lane: Option<Lane>, bundle_lane: Lane)
    ensures
        change_lane(Operation::Delete, head_lane, bundle_lane) == Lane::Red,
        rank(change_lane(operation, head_lane, bundle_lane)) >= rank(bundle_lane),
        head_lane matches Some(l) ==> rank(change_lane(operation, head_lane, bundle_lane)) >= rank(l),
{
}

// ---------------------------------------------------------------------------------------
// Finding a change's manifest in a tree
// ---------------------------------------------------------------------------------------

/// A path that can hold the manifest `name` of `project`: under the project's directory, as
/// `{name}.yaml`, `{name}.yml`, or the `space.yaml`, `pipeline.yaml` or `app.yaml` of a
/// directory named after it.
pub open spec fn holds_manifest(path: Seq<char>, project: Seq<char>, name: Seq<char>) -> bool {
    &&& starts_with(path, "projects/"@ + project + "/"@)
    &&& {
        ||| ends_with(path, "/"@ + name + ".yaml"@)
        ||| ends_with(path, "/"@ + name + ".yml"@)
        ||| ends_with(path, "/"@ + name + "/space.yaml"@)
        ||| ends_with(path, "/"@ + name + "/pipeline.yaml"@)
        ||| ends_with(path, "/"@ + name + "/app.yaml"@)
    }
}

fn framed(head: &str, middle: &str, tail: &str) -> (out: Vec<char>)
    ensures
        out@ == head@ + middle@ + tail@,
{
    let mut m: Vec<char> = chars_of(head);
    append_str(&mut m, middle);
    append_str(&mut m, tail);
    m
}

/// The first path of a tree listing that can hold the manifest `name` of `project`.
pub fn manifest_in_tree<'a>(paths: &'a Vec<String>, project: &str, name: &str) -> (r: Option<&'a String>)
    ensures
        match r {
            Some(p) => exists|i: int| 0 <= i < paths@.len() && paths@[i] == *p && holds_manifest(p@, project@, name@)
                && forall|j: int| 0 <= j < i ==> !holds_manifest(#[trigger] paths@[j]@, project@, name@),
            None => forall|j: int| 0 <= j < paths@.len() ==> !holds_manifest(#[trigger] paths@[j]@, project@, name@),
        },
{
    let prefix = framed("projects/", project, "/");
    let yaml = framed("/", name, ".yaml");
    let yml = framed("/", name, ".yml");
    let space = framed("/", name, "/space.yaml");
    let pipeline = framed("/", name, "/pipeline.yaml");
    let app = framed("/", name, "/app.yaml");
    let mut i: usize = 0;
    while i < paths.len()
        invariant
            i <= paths@.len(),
            prefix@ == "projects/"@ + project@ + "/"@,
            yaml@ == "/"@ + name@ + ".yaml"@,
            yml@ == "/"@ + name@ + ".yml"@,
            space@ == "/"@ + name@ + "/space.yaml"@,
            pipeline@ == "/"@ + name@ + "/pipeline.yaml"@,
            app@ == "/"@ + name@ + "/app.yaml"@,
            forall|j: int| 0 <= j < i ==> !holds_manifest(#[trigger] paths@[j]@, project@, name@),
        decreases paths.len() - i,
    {
        let p = chars_of(paths[i].as_str());
        let s = p.as_slice();
        if has_prefix(s, prefix.as_slice()) && (crate::text::has_suffix(s, yaml.as_slice())
            || crate::text::has_suffix(s, yml.as_slice()) || crate::text::has_suffix(s, space.as_slice())
            || crate::text::has_suffix(s, pipeline.as_slice()) || crate::text::has_suffix(s, app.as_slice())) {
            return Some(&paths[i]);
        }
        i = i + 1;
    }
    None
}

// ---------------------------------------------------------------------------------------
// The files of a change, and who wrote it
// ---------------------------------------------------------------------------------------

/// What a changed file does: deleting it deletes, adding it creates, anything else updates.
pub open spec fn file_operation_of(deleted: bool, added: bool) -> Operation {
    if deleted {
        Operation::Delete
    } else if added {
        Operation::Create
    } else {
        Operation::Update
    }
}

/// The lane one changed file takes: red when it is deleted, whatever it removes; the lane its
/// manifest is classified in (`classified`) otherwise; green for a native file, which carries
/// no spec and rides with the manifest beside it.
pub open spec fn file_lane_of(operation: Operation, classified: Option<Lane>) -> Lane {
    match operation {
        Operation::Delete => Lane::Red,
        _ => match classified {
            Some(l) => l,
            None => Lane::Green,
        },
    }
}

/// One changed file of a merge request as the change page lists it. `manifest_kind` is the kind
/// of the manifest the file holds, when it holds one, `classified` the lane that manifest is
/// classified in, and `native` the kind the file's directory names.
pub fn change_file(
    path: String,
    deleted: bool,
    added: bool,
    manifest_kind: Option<String>,
    classified: Option<Lane>,
    native: Option<String>,
) -> (f: ChangeFile)
    ensures
        f.path == path,
        f.kind@ == match manifest_kind {
            Some(k) => k@,
            None => match native {
                Some(n) => n@,
                None => Seq::empty(),
            },
        },
        f.operation == file_operation_of(deleted, added),
        f.lane == file_lane_of(f.operation, if manifest_kind is Some { classified } else { None }),
{
    let operation = if deleted {
        Operation::Delete
    } else if added {
        Operation::Create
    } else {
        Operation::Update
    };
    let has_manifest = manifest_kind.is_some();
    let kind = match manifest_kind {
        Some(k) => k,
        None => match native {
            Some(n) => n,
            None => {
                let e: Vec<char> = Vec::new();
                string_of(e.as_slice())
            },
        },
    };
    let lane = match operation {
        Operation::Delete => Lane::Red,
        _ => if has_manifest {
            match classified {
                Some(l) => l,
                None => Lane::Green,
            }
        } else {
            Lane::Green
        },
    };
    ChangeFile { path, kind, operation, lane }
}

/// The lane a whole merge request is approved in, from its files as `(deleted, classified)`:
/// red when it deletes anything, else the riskiest lane its manifests are classified in, green
/// when it carries none.
pub open spec fn approval_lane_of(files: Seq<(bool, Lane)>) -> Lane
    decreases files.len(),
{
    if files.len() == 0 {
        Lane::Green
    } else {
        let before = approval_lane_of(files.drop_last());
        if files.last().0 {
            Lane::Red
        } else {
            riskier(before, files.last().1)
        }
    }
}

/// The lane a merge request is approved in, met file by file.
pub fn approval_lane(files: &Vec<(bool, Lane)>) -> (l: Lane)
    ensures
        l == approval_lane_of(files@),
{
    let mut lane = Lane::Green;
    let mut i: usize = 0;
    while i < files.len()
        invariant
            i <= files@.len(),
            lane == approval_lane_of(files@.take(i as int)),
        decreases files.len() - i,
    {
        assert(files@.take(i + 1).drop_last() =~= files@.take(i as int));
        assert(files@.take(i + 1).last() == files@[i as int]);
        let (deleted, classified) = files[i];
        if deleted {
            lane = Lane::Red;
        } else {
            lane = riskiest(lane, classified);
        }
        i = i + 1;
    }
    assert(files@.take(files@.len() as int) =~= files@);
    lane
}

/// A merge request is approved at the level of the riskiest thing in it: its lane is at least
/// as risky as the lane of every file it carries, red for a deletion.
pub proof fn no_file_is_riskier_than_its_change(files: Seq<(bool, Lane)>, i: int)
    requires
        0 <= i < files.len(),
    ensures
        rank(approval_lane_of(files)) >= rank(if files[i].0 { Lane::Red } else { files[i].1 }),
    decreases files.len(),
{
    let last = files.len() - 1;
    if i < last {
        assert(files.drop_last()[i] == files[i]);
        no_file_is_riskier_than_its_change(files.drop_last(), i);
    }
}

/// The human behind a pull request: the author of its head commit when there is one with a
/// name, the poster otherwise.
pub fn author_of(head_commit: Option<ChangeAuthor>, poster: ChangeAuthor) -> (a: ChangeAuthor)
    ensures
        match head_commit {
            Some(c) => if trimmed(c.name@).len() > 0 {
                a.name == c.name && a.email == c.email
            } else {
                a.name == poster.name && a.email == poster.email
            },
            None => a.name == poster.name && a.email == poster.email,
        },
{
    match head_commit {
        Some(c) => {
            let n = chars_of(c.name.as_str());
            if trim_chars(n.as_slice()).len() > 0 {
                c
            } else {
                poster
            }
        },
        None => poster,
    }
}


// ---------------------------------------------------------------------------------------
// A change id read back
// ---------------------------------------------------------------------------------------

proof fn lemma_hex_char_value(d: nat)
    requires
        d < 16,
    ensures
        is_lower_hex(hex_char(d)),
        hex_value(hex_char(d)) == d,
{
    if d < 10 {
        assert(hex_char(d) as int == 48 + d);
    } else {
        assert(hex_char(d) as int == 87 + d);
    }
}

proof fn lemma_hex_fixed_reads_back(n: nat, w: nat)
    requires
        n < pow16(w),
    ensures
        hex_fixed(n, w).len() == w,
        forall|i: int| 0 <= i < w ==> is_lower_hex(#[trigger] hex_fixed(n, w)[i]),
        hex_number(hex_fixed(n, w)) == n,
    decreases w,
{
    if w > 0 {
        assert(pow16(w) == 16 * pow16((w - 1) as nat));
        assert(n / 16 < pow16((w - 1) as nat));
        lemma_hex_fixed_reads_back(n / 16, (w - 1) as nat);
        lemma_hex_char_value(n % 16);
        let h = hex_fixed(n, w);
        assert(h.drop_last() =~= hex_fixed(n / 16, (w - 1) as nat));
        assert forall|i: int| 0 <= i < w implies is_lower_hex(#[trigger] h[i]) by {
            if i < w - 1 {
                assert(h[i] == hex_fixed(n / 16, (w - 1) as nat)[i]);
            }
        }
    } else {
        assert(n == 0);
    }
}

/// The id written for merge request `n`, `chg-` and its number in eight lower-case hex digits,
/// is well formed and reads back as `n`.
pub proof fn change_ids_read_back(n: nat)
    requires
        n < 0x1_0000_0000,
    ensures
        change_id_digits("chg-"@ + hex_fixed(n, 8)) == Some(hex_fixed(n, 8)),
        hex_number(hex_fixed(n, 8)) == n,
{
    reveal_strlit("chg-");
    reveal_with_fuel(pow16, 9);
    assert(pow16(8) == 0x1_0000_0000);
    lemma_hex_fixed_reads_back(n, 8);
    let id = "chg-"@ + hex_fixed(n, 8);
    assert(starts_with(id, "chg-"@)) by {
        assert(id.subrange(0, 4) =~= "chg-"@);
    }
    assert(id.subrange(4, id.len() as int) =~= hex_fixed(n, 8));
}

} // verus!
