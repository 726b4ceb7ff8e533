//! The forge's webhook: the signature that authenticates a callback, and which events make
//! the mirror synchronise.

use vstd::prelude::*;
use vstd::utf8::encode_utf8;
use hmac::Mac;
use crate::error::ApiError;
use crate::json::{bool_of_opt, get, get_text, JsonValue};
use crate::text::{
    hex_bytes, hex_char, is_white, trim_end, trim_start,
    ascii_lower, chars_of, has_prefix, hex_digit, hex_value, hex_value_of, is_hex_digit,
    lower_all, seq_eq, slice_of, starts_with, str_eq, string_of, trim_chars, trimmed,
};

verus! {

// ---------------------------------------------------------------------------------------
// The signature
// ---------------------------------------------------------------------------------------

/// The byte two hexadecimal digits spell.
pub open spec fn hex_byte(high: char, low: char) -> u8 {
    (hex_value(high) * 16 + hex_value(low)) as u8
}

/// The bytes a string of hexadecimal digit pairs spells, either case; nothing when it is
/// empty, odd, or holds anything but hexadecimal digits. (Every character that passes is
/// ASCII, so counting characters is counting bytes.)
pub open spec fn hex_decoded(hex: Seq<char>) -> Option<Seq<u8>> {
    if hex.len() == 0 || hex.len() % 2 != 0 || !(forall|i: int|
        0 <= i < hex.len() ==> is_hex_digit(#[trigger] hex[i])) {
        None
    } else {
        Some(Seq::new(hex.len() / 2, |k: int| hex_byte(hex[2 * k], hex[2 * k + 1])))
    }
}

pub fn decode_hex(hex: &str) -> (r: Option<Vec<u8>>)
    ensures
        match r {
            Some(b) => hex_decoded(hex@) == Some(b@),
            None => hex_decoded(hex@) is None,
        },
{
    let h = chars_of(hex);
    if h.len() == 0 || h.len() % 2 != 0 {
        return None;
    }
    let len = h.len();
    let n = len / 2;
    let mut out: Vec<u8> = Vec::new();
    let mut k: usize = 0;
    while k < n
        invariant
            k <= n,
            n * 2 == h@.len(),
            len == h@.len(),
            h@ == hex@,
            forall|m: int| 0 <= m < 2 * k ==> is_hex_digit(#[trigger] h@[m]),
            out@ =~= Seq::new(k as nat, |m: int| hex_byte(h@[2 * m], h@[2 * m + 1])),
        decreases n - k,
    {
        assert(2 * k + 1 < len);
        let i = k + k;
        let a = h[i];
        let b = h[i + 1];
        if !hex_digit(a) || !hex_digit(b) {
            return None;
        }
        let high = hex_value_of(a);
        let low = hex_value_of(b);
        let byte = high * 16 + low;
        assert(byte == hex_byte(a, b));
        out.push(byte);
        k = k + 1;
    }
    Some(out)
}

/// The HMAC-SHA256 tag of a message under a key.
pub uninterp spec fn hmac_sha256(key: Seq<u8>, message: Seq<u8>) -> Seq<u8>;

/// `Hmac::<Sha256>::new_from_slice(key)`, `Mac::update(message)` and `Mac::verify_slice(tag)`:
/// whether `tag` is the HMAC-SHA256 of the message under the key. The crate's source accepts a
/// key of any length, and `verify_slice` answers `Ok` exactly when the tag has the output's
/// length and equals the computed tag (compared in constant time).
#[verifier::external_body]
fn hmac_matches(key: &[u8], message: &[u8], tag: &[u8]) -> (b: bool)
    ensures
        b == (hmac_sha256(key@, message@) == tag@),
{
    match <hmac::Hmac<sha2::Sha256> as hmac::Mac>::new_from_slice(key) {
        Ok(mut mac) => {
            mac.update(message);
            mac.verify_slice(tag).is_ok()
        },
        Err(_) => false,
    }
}

/// Whether a presented signature is the HMAC-SHA256 of the body under the secret: the
/// signature is hexadecimal in either case, whitespace around it ignored.
pub open spec fn signature_valid(secret: Seq<char>, body: Seq<u8>, presented: Seq<char>) -> bool {
    match hex_decoded(trimmed(presented)) {
        Some(expected) => hmac_sha256(encode_utf8(secret), body) == expected,
        None => false,
    }
}

/// Verifies the HMAC-SHA256 signature of a webhook payload against the secret.
///
/// A non-hex or invalid `presented_hex` returns `false` without panicking.
pub fn verify_signature(secret: &str, body: &[u8], presented_hex: &str) -> (b: bool)
    ensures
        b == signature_valid(secret@, body@, presented_hex@),
{
    let p = chars_of(presented_hex);
    let t = trim_chars(p.as_slice());
    let text = string_of(t.as_slice());
    let expected = match decode_hex(text.as_str()) {
        Some(e) => e,
        None => return false,
    };
    hmac_matches(secret.as_bytes(), body, expected.as_slice())
}

/// What a callback is answered before its body is read: the secret must be configured (503
/// otherwise), and a signature presented and valid (401 otherwise).
pub fn authenticate(secret: Option<&str>, signature: Option<&str>, body: &[u8]) -> (r: Result<(), ApiError>)
    ensures
        match secret {
            None => r matches Err(ApiError::Unavailable(m)) && m@
                == "gitea webhook secret is not configured"@,
            Some(s) => match signature {
                None => r matches Err(ApiError::Unauthorized),
                Some(p) => if signature_valid(s@, body@, p@) {
                    r is Ok
                } else {
                    r matches Err(ApiError::Unauthorized)
                },
            },
        },
{
    let s = match secret {
        Some(s) => s,
        None => {
            return Err(
                ApiError::Unavailable(
                    string_of(chars_of("gitea webhook secret is not configured").as_slice()),
                ),
            )
        },
    };
    let p = match signature {
        Some(p) => p,
        None => return Err(ApiError::Unauthorized),
    };
    if !verify_signature(s, body, p) {
        return Err(ApiError::Unauthorized);
    }
    Ok(())
}

// ---------------------------------------------------------------------------------------
// Which events synchronise
// ---------------------------------------------------------------------------------------

/// A pull request that was closed by merging it.
pub open spec fn pr_closed_merged(payload: JsonValue) -> bool {
    let merged = match get(payload, "pull_request"@) {
        Some(pr) => bool_of_opt(get(pr, "merged"@)) == Some(true),
        None => false,
    };
    get_text(payload, "action"@) == Some("closed"@) && merged
}

pub fn is_pr_closed_merged(payload: &JsonValue) -> (b: bool)
    ensures
        b == pr_closed_merged(*payload),
        b ==> get_text(*payload, "action"@) == Some("closed"@),
        b ==> (get(*payload, "pull_request"@) is Some && bool_of_opt(
            get(get(*payload, "pull_request"@).unwrap(), "merged"@),
        ) == Some(true)),
{
    let closed = match payload.text_at("action") {
        Some(a) => str_eq(a.as_str(), "closed"),
        None => false,
    };
    let merged = match payload.get_member("pull_request") {
        Some(pr) => match pr.flag_at("merged") {
            Some(m) => m,
            None => false,
        },
        None => false,
    };
    proof {
        reveal_strlit("closed");
    }
    closed && merged
}

/// A push to the repository's default branch (`main` when the payload names none); a tag is
/// never one.
pub open spec fn default_branch_push(payload: JsonValue) -> bool {
    match get_text(payload, "ref"@) {
        None => false,
        Some(r) => if starts_with(r, "refs/tags/"@) {
            false
        } else {
            let branch = if starts_with(r, "refs/heads/"@) {
                r.subrange("refs/heads/"@.len() as int, r.len() as int)
            } else {
                r
            };
            let default = match get(payload, "repository"@) {
                Some(repo) => match get_text(repo, "default_branch"@) {
                    Some(d) => d,
                    None => "main"@,
                },
                None => "main"@,
            };
            branch == default
        },
    }
}

pub fn is_default_branch_push(payload: &JsonValue) -> (b: bool)
    ensures
        b == default_branch_push(*payload),
{
    let r = match payload.text_at("ref") {
        Some(r) => chars_of(r.as_str()),
        None => return false,
    };
    if has_prefix(r.as_slice(), chars_of("refs/tags/").as_slice()) {
        return false;
    }
    let heads = chars_of("refs/heads/");
    let branch = if has_prefix(r.as_slice(), heads.as_slice()) {
        slice_of(r.as_slice(), heads.len(), r.len())
    } else {
        r
    };
    let default = match payload.get_member("repository") {
        Some(repo) => match repo.text_at("default_branch") {
            Some(d) => chars_of(d.as_str()),
            None => chars_of("main"),
        },
        None => chars_of("main"),
    };
    seq_eq(branch.as_slice(), default.as_slice())
}

/// Whether a callback makes the mirror synchronise: a merged pull request or a push to the
/// default branch, by the event header (in any case) or, without one, by the payload's shape.
pub open spec fn syncs(event: Option<Seq<char>>, payload: JsonValue) -> bool {
    match event {
        Some(e) => {
            let lower = e.map_values(|c: char| ascii_lower(c));
            if lower == "pull_request"@ {
                pr_closed_merged(payload)
            } else if lower == "push"@ {
                default_branch_push(payload)
            } else {
                false
            }
        },
        None => if get(payload, "pull_request"@) is Some {
            pr_closed_merged(payload)
        } else if get(payload, "ref"@) is Some {
            default_branch_push(payload)
        } else {
            false
        },
    }
}

/// Only a pull request closed by merging it, or a push to the default branch, synchronises the
/// mirror, whatever the event header says: a callback whose pull request is unmerged (`merged`
/// false or absent) and that names no pushed ref never does. Without an event header, a payload
/// with a pull request synchronises exactly when its action is `closed` and `merged` is true.
pub proof fn only_a_merge_or_a_push_synchronises(event: Option<Seq<char>>, payload: JsonValue)
    ensures
        syncs(event, payload) ==> (get_text(payload, "action"@) == Some("closed"@) && get(
            payload,
            "pull_request"@,
        ) is Some && bool_of_opt(get(get(payload, "pull_request"@).unwrap(), "merged"@)) == Some(
            true,
        )) || default_branch_push(payload),
        get_text(payload, "ref"@) is None && !(get(payload, "pull_request"@) is Some && bool_of_opt(
            get(get(payload, "pull_request"@).unwrap(), "merged"@),
        ) == Some(true)) ==> !syncs(event, payload),
        (get_text(payload, "ref"@) matches Some(r) && starts_with(r, "refs/tags/"@)) && !(get(
            payload,
            "pull_request"@,
        ) is Some && bool_of_opt(get(get(payload, "pull_request"@).unwrap(), "merged"@)) == Some(
            true,
        )) ==> !syncs(event, payload),
        get(payload, "pull_request"@) is Some ==> (syncs(None, payload) <==> (get_text(
            payload,
            "action"@,
        ) == Some("closed"@) && bool_of_opt(get(get(payload, "pull_request"@).unwrap(), "merged"@))
            == Some(true))),
{
}

pub fn should_sync(event: Option<&str>, payload: &JsonValue) -> (b: bool)
    ensures
        b == syncs(
            match event {
                Some(e) => Some(e@),
                None => None,
            },
            *payload,
        ),
        b ==> (get_text(*payload, "action"@) == Some("closed"@) && get(*payload, "pull_request"@) is Some
            && bool_of_opt(get(get(*payload, "pull_request"@).unwrap(), "merged"@)) == Some(true))
            || default_branch_push(*payload),
{
    proof {
        only_a_merge_or_a_push_synchronises(
            match event {
                Some(e) => Some(e@),
                None => None,
            },
            *payload,
        );
    }
    match event {
        Some(e) => {
            let c = chars_of(e);
            let lower = lower_all(c.as_slice());
            if seq_eq(lower.as_slice(), chars_of("pull_request").as_slice()) {
                is_pr_closed_merged(payload)
            } else if seq_eq(lower.as_slice(), chars_of("push").as_slice()) {
                is_default_branch_push(payload)
            } else {
                false
            }
        },
        None => {
            if payload.get_member("pull_request").is_some() {
                is_pr_closed_merged(payload)
            } else if payload.get_member("ref").is_some() {
                is_default_branch_push(payload)
            } else {
                false
            }
        },
    }
}


// ---------------------------------------------------------------------------------------
// Laws
// ---------------------------------------------------------------------------------------

proof fn lemma_hex_digit_value(d: nat)
    requires
        d < 16,
    ensures
        is_hex_digit(hex_char(d)),
        hex_value(hex_char(d)) == d,
        !is_white(hex_char(d)),
{
}

proof fn lemma_hex_bytes(b: Seq<u8>)
    ensures
        hex_bytes(b).len() == 2 * b.len(),
        forall|k: int|
            0 <= k < b.len() ==> hex_bytes(b)[2 * k] == hex_char((b[k] / 16) as nat) && hex_bytes(
                b,
            )[2 * k + 1] == hex_char((b[k] % 16) as nat),
    decreases b.len(),
{
    if b.len() > 0 {
        lemma_hex_bytes(b.drop_last());
        let h = hex_bytes(b.drop_last());
        assert forall|k: int| 0 <= k < b.len() implies hex_bytes(b)[2 * k] == hex_char(
            (b[k] / 16) as nat,
        ) && hex_bytes(b)[2 * k + 1] == hex_char((b[k] % 16) as nat) by {
            if k < b.len() - 1 {
                assert(b[k] == b.drop_last()[k]);
                assert(hex_bytes(b)[2 * k] == h[2 * k]);
                assert(hex_bytes(b)[2 * k + 1] == h[2 * k + 1]);
            }
        }
    }
}

/// The hexadecimal of some bytes decodes back to them.
pub proof fn hex_round_trip(b: Seq<u8>)
    requires
        b.len() > 0,
    ensures
        hex_decoded(hex_bytes(b)) == Some(b),
{
    lemma_hex_bytes(b);
    let h = hex_bytes(b);
    assert forall|i: int| 0 <= i < h.len() implies is_hex_digit(#[trigger] h[i]) by {
        let k = i / 2;
        assert(0 <= k < b.len());
        lemma_hex_digit_value((b[k] / 16) as nat);
        lemma_hex_digit_value((b[k] % 16) as nat);
        if i % 2 == 0 {
            assert(i == 2 * k);
        } else {
            assert(i == 2 * k + 1);
        }
    }
    assert forall|k: int| 0 <= k < b.len() implies #[trigger] hex_byte(h[2 * k], h[2 * k + 1]) == b[k] by {
        lemma_hex_digit_value((b[k] / 16) as nat);
        lemma_hex_digit_value((b[k] % 16) as nat);
    }
    assert(Seq::new(h.len() / 2, |k: int| hex_byte(h[2 * k], h[2 * k + 1])) =~= b);
}

/// A signature written as the lower-case hexadecimal of the body's HMAC-SHA256 under the
/// secret is accepted.
pub proof fn computed_signature_is_accepted(secret: Seq<char>, body: Seq<u8>, tag: Seq<u8>)
    requires
        tag == hmac_sha256(encode_utf8(secret), body),
        tag.len() > 0,
    ensures
        signature_valid(secret, body, hex_bytes(tag)),
{
    hex_round_trip(tag);
    lemma_hex_bytes(tag);
    let h = hex_bytes(tag);
    lemma_hex_digit_value((tag[0] / 16) as nat);
    lemma_hex_digit_value((tag[tag.len() - 1] % 16) as nat);
    assert(h[0] == hex_char((tag[0] / 16) as nat));
    assert(h[h.len() - 1] == hex_char((tag[tag.len() - 1] % 16) as nat));
    assert(trim_start(h) == h);
    assert(trim_end(h) == h);
}

} // verus!
