//! What a proposal writes: the refusal of literal secrets, the branch a change lives on, who
//! the commit is authored by, and the files a proposal may carry beside its manifest.

use vstd::prelude::*;
use vstd::utf8::encode_utf8;
use crate::change::{Lane, Operation};
use crate::error::ApiError;
use crate::json::{get, get_text, member, JsonValue};
use crate::json_edit::{set_member, take_member};
use crate::assistant::{ref_name, ref_name_of};
use crate::resource::{by_plural, entry, entry_of, Envelope, KindInfo};
use crate::text::{
    append_chars, append_str, chars_of, decimal, decimal_of, find_last, has_char, has_prefix,
    hex_char, hex_char_of, join, last_index, lemma_last_index, lower_all, ascii_lower, seq_eq,
    slice_of, split, split_chars, starts_with, str_eq, string_of, trim_chars, trimmed,
};

verus! {

// ---------------------------------------------------------------------------------------
// Literal secrets
// ---------------------------------------------------------------------------------------

/// The field names whose string values are credentials wherever they appear: refused on a
/// write, redacted in a plan diff and dropped from an export.
pub open spec fn is_secret_key(k: Seq<char>) -> bool {
    k == "password"@ || k == "token"@ || k == "secret"@ || k == "clientSecret"@ || k == "apiKey"@
        || k == "client_secret"@ || k == "api_key"@ || k == "apiToken"@ || k == "api_token"@
}

pub fn secret_key(k: &str) -> (b: bool)
    ensures
        b == is_secret_key(k@),
{
    let c = chars_of(k);
    let s = c.as_slice();
    seq_eq(s, chars_of("password").as_slice()) || seq_eq(s, chars_of("token").as_slice())
        || seq_eq(s, chars_of("secret").as_slice()) || seq_eq(s, chars_of("clientSecret").as_slice())
        || seq_eq(s, chars_of("apiKey").as_slice()) || seq_eq(
        s,
        chars_of("client_secret").as_slice(),
    ) || seq_eq(s, chars_of("api_key").as_slice()) || seq_eq(s, chars_of("apiToken").as_slice())
        || seq_eq(s, chars_of("api_token").as_slice())
}

/// The first key, depth first in document order, that holds a literal secret: a string under a
/// credential key. An object under such a key (a `secretRef`) is no literal.
pub open spec fn literal_secret(v: JsonValue) -> Option<Seq<char>>
    decreases v, 0int,
{
    match v {
        JsonValue::Object(m) => member_secret(m@, 0),
        JsonValue::Array(a) => item_secret(a@, 0),
        _ => None,
    }
}

pub open spec fn member_secret(m: Seq<(String, JsonValue)>, k: int) -> Option<Seq<char>>
    decreases m, m.len() - k,
{
    if k < 0 || k >= m.len() {
        None
    } else if is_secret_key(m[k].0@) && m[k].1 is Str {
        Some(m[k].0@)
    } else {
        match literal_secret(m[k].1) {
            Some(f) => Some(f),
            None => member_secret(m, k + 1),
        }
    }
}

pub open spec fn item_secret(a: Seq<JsonValue>, k: int) -> Option<Seq<char>>
    decreases a, a.len() - k,
{
    if k < 0 || k >= a.len() {
        None
    } else {
        match literal_secret(a[k]) {
            Some(f) => Some(f),
            None => item_secret(a, k + 1),
        }
    }
}

/// Detects string-valued literal secrets in manifest payloads.
///
/// Returns the first offending key name if any string-valued credential key exists at any
/// depth. Object-valued secret references (such as `secretRef: { name: "..." }`) are permitted.
pub fn find_literal_secret(val: &JsonValue) -> (r: Option<String>)
    ensures
        match r {
            Some(k) => literal_secret(*val) == Some(k@),
            None => literal_secret(*val) is None,
        },
    decreases val,
{
    match val {
        JsonValue::Object(map) => {
            let mut i: usize = map.len();
            let mut found: Option<String> = None;
            // From the last member back, so that the first hit in document order is the one
            // that stands.
            while i > 0
                invariant
                    i <= map@.len(),
                    *val == JsonValue::Object(*map),
                    match found {
                        Some(k) => member_secret(map@, i as int) == Some(k@),
                        None => member_secret(map@, i as int) is None,
                    },
                decreases i,
            {
                i = i - 1;
                let key = &map[i].0;
                let is_text = match &map[i].1 {
                    JsonValue::Str(_) => true,
                    _ => false,
                };
                if secret_key(key.as_str()) && is_text {
                    found = Some(key.clone());
                } else {
                    assert(decreases_to!(*val => (*val)->Object_0));
                    assert(decreases_to!(*map => map@));
                    assert(decreases_to!(map@ => map@[i as int]));
                    assert(decreases_to!(map@[i as int] => map@[i as int].1));
                    match find_literal_secret(&map[i].1) {
                        Some(k) => {
                            found = Some(k);
                        },
                        None => {},
                    }
                }
            }
            found
        },
        JsonValue::Array(arr) => {
            let mut i: usize = arr.len();
            let mut found: Option<String> = None;
            while i > 0
                invariant
                    i <= arr@.len(),
                    *val == JsonValue::Array(*arr),
                    match found {
                        Some(k) => item_secret(arr@, i as int) == Some(k@),
                        None => item_secret(arr@, i as int) is None,
                    },
                decreases i,
            {
                i = i - 1;
                assert(decreases_to!(*val => (*val)->Array_0));
                assert(decreases_to!(*arr => arr@));
                assert(decreases_to!(arr@ => arr@[i as int]));
                match find_literal_secret(&arr[i]) {
                    Some(k) => {
                        found = Some(k);
                    },
                    None => {},
                }
            }
            found
        },
        _ => None,
    }
}

// ---------------------------------------------------------------------------------------
// The branch of a proposal
// ---------------------------------------------------------------------------------------

pub open spec fn operation_word(operation: Operation) -> Seq<char> {
    match operation {
        Operation::Create => "create"@,
        Operation::Update => "update"@,
        Operation::Delete => "delete"@,
    }
}

/// `n` in lower-case hexadecimal, `width` digits, zeros in front.
pub open spec fn hex_fixed(n: nat, width: nat) -> Seq<char>
    decreases width,
{
    if width == 0 {
        Seq::empty()
    } else {
        hex_fixed(n / 16, (width - 1) as nat).push(hex_char(n % 16))
    }
}

/// `portal/{op}-{kind in lower case}-{name}-{the first 8 of 16 hex digits of the hash}`.
pub open spec fn branch_of(kind: Seq<char>, name: Seq<char>, operation: Operation, hash: u64) -> Seq<char> {
    "portal/"@ + operation_word(operation) + "-"@ + kind.map_values(|c: char| ascii_lower(c)) + "-"@
        + name + "-"@ + hex_fixed(hash as nat / 0x1_0000_0000, 8)
}

fn operation_text(operation: Operation) -> (s: &'static str)
    ensures
        s@ == operation_word(operation),
{
    match operation {
        Operation::Create => "create",
        Operation::Update => "update",
        Operation::Delete => "delete",
    }
}

fn hex_digits(n: u64, width: usize) -> (out: Vec<char>)
    ensures
        out@ == hex_fixed(n as nat, width as nat),
    decreases width,
{
    if width == 0 {
        Vec::new()
    } else {
        let mut out = hex_digits(n / 16, width - 1);
        out.push(hex_char_of((n % 16) as u8));
        out
    }
}

/// The branch a proposal lives on, given the hash of `(project, kind, name, operation)`.
pub fn branch_with_hash(kind: &str, name: &str, operation: Operation, hash: u64) -> (b: String)
    ensures
        b@ == branch_of(kind@, name@, operation, hash),
{
    let mut out = chars_of("portal/");
    append_str(&mut out, operation_text(operation));
    append_str(&mut out, "-");
    let k = chars_of(kind);
    let lower = lower_all(k.as_slice());
    append_chars(&mut out, lower.as_slice());
    append_str(&mut out, "-");
    append_str(&mut out, name);
    append_str(&mut out, "-");
    let digits = hex_digits(hash / 0x1_0000_0000, 8);
    append_chars(&mut out, digits.as_slice());
    string_of(out.as_slice())
}

/// `DefaultHasher::new()` fed the tuple `(project, kind, name, operation)`, then `finish`.
///
/// Nothing is claimed of the value: std does not specify the algorithm, and it hashes integers
/// in the machine's byte order, so the same arguments need not give the same number elsewhere.
#[verifier::external_body]
fn proposal_hash(project: &str, kind: &str, name: &str, operation: Operation) -> (h: u64) {
    let mut hasher = std::hash::DefaultHasher::new();
    std::hash::Hash::hash(&(project, kind, name, operation), &mut hasher);
    std::hash::Hasher::finish(&hasher)
}

/// The branch a proposal lives on: one per project, kind, name and operation, so a retry
/// lands on the same pull request and a second proposal finds the open one.
pub fn branch_name(project: &str, kind: &str, name: &str, operation: Operation) -> (b: String)
    ensures
        exists|h: u64| b@ == branch_of(kind@, name@, operation, h),
{
    let h = proposal_hash(project, kind, name, operation);
    branch_with_hash(kind, name, operation, h)
}

// ---------------------------------------------------------------------------------------
// Authorship
// ---------------------------------------------------------------------------------------

/// Who a commit is authored by: the person's name, else their username; their e-mail, else
/// `{username}@{project}.local`.
pub fn author_credentials(
    name: Option<&str>,
    email: Option<&str>,
    username: &str,
    project: &str,
) -> (r: (String, String))
    ensures
        r.0@ == match name {
            Some(n) => n@,
            None => username@,
        },
        r.1@ == match email {
            Some(e) => e@,
            None => username@ + "@"@ + project@ + ".local"@,
        },
{
    let author = match name {
        Some(n) => string_of(chars_of(n).as_slice()),
        None => string_of(chars_of(username).as_slice()),
    };
    let mail = match email {
        Some(e) => string_of(chars_of(e).as_slice()),
        None => {
            let mut m = chars_of(username);
            append_str(&mut m, "@");
            append_str(&mut m, project);
            append_str(&mut m, ".local");
            string_of(m.as_slice())
        },
    };
    (author, mail)
}

/// What a proposal into a workspace wrote.
#[derive(Debug)]
pub struct WorkspaceCommit {
    pub workspace: String,
    pub branch: String,
    /// The manifest's path in the repository.
    pub path: String,
    pub lane: Lane,
}

// ---------------------------------------------------------------------------------------
// Files beside a manifest
// ---------------------------------------------------------------------------------------

/// The folder of a path: what comes before its last `/`, nothing when it has none.
pub open spec fn folder_of(path: Seq<char>) -> Seq<char> {
    let k = last_index(path, '/');
    if k >= 0 {
        path.subrange(0, k)
    } else {
        Seq::empty()
    }
}

/// A path without the `./` it may start with.
pub open spec fn without_dot_slash(path: Seq<char>) -> Seq<char> {
    if starts_with(path, "./"@) {
        path.subrange("./"@.len() as int, path.len() as int)
    } else {
        path
    }
}

/// Whether a relative path could leave the manifest's folder or name nothing.
pub open spec fn bad_relative(relative: Seq<char>) -> bool {
    ||| relative.len() == 0
    ||| relative[0] == '/'
    ||| relative.contains('\\')
    ||| relative.contains('\0')
    ||| exists|i: int|
        0 <= i < split(relative, '/').len() && {
            let part = #[trigger] split(relative, '/')[i];
            part.len() == 0 || part == "."@ || part == ".."@
        }
}

pub open spec fn not_an_object() -> Seq<char> {
    "'files' is an object of path to file content; see API/01 §4"@
}

pub open spec fn too_many(n: nat) -> Seq<char> {
    "a proposal carries at most 16 files beside its manifest, not "@ + decimal(n)
        + "; a repository's worth of files is an import (POST …/import)"@
}

pub open spec fn not_text(path: Seq<char>) -> Seq<char> {
    "file '"@ + path + "' is not text; its content is a string"@
}

pub open spec fn outside_folder(path: Seq<char>) -> Seq<char> {
    "file path '"@ + path
        + "' is not a path under the manifest's own folder; it is relative, has no '..' and no leading '/'"@
}

pub open spec fn sent_twice(path: Seq<char>) -> Seq<char> {
    "file path '"@ + path + "' is sent twice"@
}

pub open spec fn too_big() -> Seq<char> {
    "the files beside the manifest are more than 262144 bytes together; a repository's worth of files is an import (POST …/import)"@
}

/// The files written so far and their size in bytes, or the refusal, after the first `k`
/// members of `files`.
pub open spec fn sidecar_state(
    files: Seq<(String, JsonValue)>,
    folder: Seq<char>,
    k: int,
) -> Result<(Seq<(Seq<char>, Seq<char>)>, nat), Seq<char>>
    decreases k,
{
    if k <= 0 {
        Ok((Seq::empty(), 0))
    } else {
        match sidecar_state(files, folder, k - 1) {
            Err(e) => Err(e),
            Ok((written, bytes)) => {
                let path = files[k - 1].0@;
                match files[k - 1].1 {
                    JsonValue::Str(content) => {
                        let relative = without_dot_slash(path);
                        let full = folder + "/"@ + relative;
                        if bad_relative(relative) {
                            Err(outside_folder(path))
                        } else if exists|i: int| 0 <= i < written.len() && (#[trigger] written[i]).0 == full {
                            Err(sent_twice(path))
                        } else if bytes + encode_utf8(content@).len() > 262144 {
                            Err(too_big())
                        } else {
                            Ok((written.push((full, content@)), bytes + encode_utf8(content@).len()))
                        }
                    },
                    _ => Err(not_text(path)),
                }
            },
        }
    }
}

/// The files a proposal carries beside its manifest, each under the manifest's folder, or
/// why they are refused.
pub open spec fn sidecars_of(files: Option<JsonValue>, manifest_path: Seq<char>) -> Result<
    Seq<(Seq<char>, Seq<char>)>,
    Seq<char>,
> {
    match files {
        None => Ok(Seq::empty()),
        Some(JsonValue::Object(m)) => if m@.len() > 16 {
            Err(too_many(m@.len()))
        } else {
            match sidecar_state(m@, folder_of(manifest_path), m@.len() as int) {
                Ok((written, _)) => Ok(written),
                Err(e) => Err(e),
            }
        },
        Some(_) => Err(not_an_object()),
    }
}

/// Once a member is refused, the refusal is the answer.
proof fn lemma_refusal_stands(files: Seq<(String, JsonValue)>, folder: Seq<char>, k: int, n: int)
    requires
        0 <= k <= n,
        sidecar_state(files, folder, k) is Err,
    ensures
        sidecar_state(files, folder, n) == sidecar_state(files, folder, k),
    decreases n - k,
{
    if k < n {
        lemma_refusal_stands(files, folder, k, n - 1);
    }
}

pub open spec fn pair_views(v: Seq<(String, String)>) -> Seq<(Seq<char>, Seq<char>)> {
    v.map_values(|p: (String, String)| (p.0@, p.1@))
}

fn bad_path(relative: &[char]) -> (b: bool)
    ensures
        b == bad_relative(relative@),
{
    if relative.len() == 0 || relative[0] == '/' || has_char(relative, '\\') || has_char(
        relative,
        '\0',
    ) {
        return true;
    }
    let parts = split_chars(relative, '/');
    let dot = chars_of(".");
    let dots = chars_of("..");
    let mut i: usize = 0;
    while i < parts.len()
        invariant
            i <= parts@.len(),
            dot@ == "."@,
            dots@ == ".."@,
            parts@.len() == split(relative@, '/').len(),
            forall|k: int| 0 <= k < parts@.len() ==> #[trigger] parts@[k]@ == split(relative@, '/')[k],
            forall|k: int|
                0 <= k < i ==> {
                    let part = #[trigger] split(relative@, '/')[k];
                    !(part.len() == 0 || part == "."@ || part == ".."@)
                },
        decreases parts.len() - i,
    {
        assert(parts@[i as int]@ == split(relative@, '/')[i as int]);
        if parts[i].len() == 0 || seq_eq(parts[i].as_slice(), dot.as_slice()) || seq_eq(
            parts[i].as_slice(),
            dots.as_slice(),
        ) {
            return true;
        }
        i = i + 1;
    }
    false
}

fn already_written(written: &Vec<(String, String)>, full: &[char]) -> (b: bool)
    ensures
        b == exists|q: int| 0 <= q < pair_views(written@).len() && (#[trigger] pair_views(written@)[q]).0 == full@,
{
    let mut j: usize = 0;
    while j < written.len()
        invariant
            j <= written@.len(),
            forall|q: int| 0 <= q < j ==> written@[q].0@ != full@,
        decreases written.len() - j,
    {
        let w = chars_of(written[j].0.as_str());
        if seq_eq(w.as_slice(), full) {
            assert(pair_views(written@)[j as int].0 == full@);
            return true;
        }
        j = j + 1;
    }
    assert(!(exists|q: int| 0 <= q < pair_views(written@).len() && (#[trigger] pair_views(written@)[q]).0 == full@)) by {
        if exists|q: int| 0 <= q < pair_views(written@).len() && (#[trigger] pair_views(written@)[q]).0 == full@ {
            let q = choose|q: int| 0 <= q < pair_views(written@).len() && (#[trigger] pair_views(written@)[q]).0 == full@;
            assert(written@[q].0@ == full@);
        }
    }
    false
}

fn refusal(head: &str, path: &str, tail: &str) -> (e: ApiError)
    ensures
        e matches ApiError::BadRequest(s) && s@ == head@ + path@ + tail@,
{
    let mut m = chars_of(head);
    append_str(&mut m, path);
    append_str(&mut m, tail);
    ApiError::BadRequest(string_of(m.as_slice()))
}

/// The files a proposal carries beside its manifest (a Mapping's golden test), each put under
/// the manifest's own folder. At most 16 files and 262144 bytes together; a path that is
/// absolute, climbs with `..`, or names no file is refused, and so is a path sent twice.
pub fn sidecars(files: Option<&JsonValue>, manifest_path: &str) -> (r: Result<Vec<(String, String)>, ApiError>)
    ensures
        match (r, sidecars_of(
            match files {
                Some(f) => Some(*f),
                None => None,
            },
            manifest_path@,
        )) {
            (Ok(v), Ok(w)) => pair_views(v@) == w,
            (Err(ApiError::BadRequest(m)), Err(e)) => m@ == e,
            _ => false,
        },
{
    let members = match files {
        None => {
            let v: Vec<(String, String)> = Vec::new();
            assert(pair_views(v@) =~= Seq::<(Seq<char>, Seq<char>)>::empty());
            return Ok(v);
        },
        Some(JsonValue::Object(m)) => m,
        Some(_) => {
            return Err(
                ApiError::BadRequest(
                    string_of(
                        chars_of("'files' is an object of path to file content; see API/01 §4").as_slice(),
                    ),
                ),
            );
        },
    };
    if members.len() > 16 {
        let mut m = chars_of("a proposal carries at most 16 files beside its manifest, not ");
        let n = decimal_of(members.len() as u64);
        append_chars(&mut m, n.as_slice());
        append_str(&mut m, "; a repository's worth of files is an import (POST …/import)");
        return Err(ApiError::BadRequest(string_of(m.as_slice())));
    }
    let mp = chars_of(manifest_path);
    let folder = match find_last(mp.as_slice(), '/') {
        Some(k) => {
            proof {
                lemma_last_index(mp@, '/');
            }
            slice_of(mp.as_slice(), 0, k)
        },
        None => Vec::new(),
    };
    assert(folder@ == folder_of(manifest_path@));
    let mut written: Vec<(String, String)> = Vec::new();
    let mut bytes: usize = 0;
    let mut i: usize = 0;
    let dot_slash = chars_of("./");
    assert(pair_views(written@) =~= Seq::<(Seq<char>, Seq<char>)>::empty());
    while i < members.len()
        invariant
            i <= members@.len() <= 16,
            match files {
                Some(f) => *f == JsonValue::Object(*members),
                None => false,
            },
            folder@ == folder_of(manifest_path@),
            dot_slash@ == "./"@,
            sidecar_state(members@, folder@, i as int) == Ok::<(Seq<(Seq<char>, Seq<char>)>, nat), Seq<char>>((pair_views(written@), bytes as nat)),
            bytes <= 262144,
        decreases members.len() - i,
    {
        let path = &members[i].0;
        let content = match &members[i].1 {
            JsonValue::Str(c) => c,
            _ => {
                proof {
                    lemma_refusal_stands(members@, folder@, i + 1, members@.len() as int);
                }
                return Err(refusal("file '", path.as_str(), "' is not text; its content is a string"));
            },
        };
        let p = chars_of(path.as_str());
        let relative = if has_prefix(p.as_slice(), dot_slash.as_slice()) {
            slice_of(p.as_slice(), dot_slash.len(), p.len())
        } else {
            p.clone()
        };
        assert(relative@ == without_dot_slash(path@));
        if bad_path(relative.as_slice()) {
            proof {
                lemma_refusal_stands(members@, folder@, i + 1, members@.len() as int);
            }
            return Err(
                refusal(
                    "file path '",
                    path.as_str(),
                    "' is not a path under the manifest's own folder; it is relative, has no '..' and no leading '/'",
                ),
            );
        }
        let mut full = folder.clone();
        append_str(&mut full, "/");
        append_chars(&mut full, relative.as_slice());
        let full_text = string_of(full.as_slice());
        assert(full@ == folder_of(manifest_path@) + "/"@ + without_dot_slash(path@));
        if already_written(&written, full.as_slice()) {
            proof {
                lemma_refusal_stands(members@, folder@, i + 1, members@.len() as int);
            }
            return Err(refusal("file path '", path.as_str(), "' is sent twice"));
        }
        let size = content.as_str().as_bytes().len();
        if size > 262144 - bytes {
            proof {
                lemma_refusal_stands(members@, folder@, i + 1, members@.len() as int);
            }
            return Err(
                ApiError::BadRequest(
                    string_of(
                        chars_of(
                            "the files beside the manifest are more than 262144 bytes together; a repository's worth of files is an import (POST …/import)",
                        ).as_slice(),
                    ),
                ),
            );
        }
        bytes = bytes + size;
        let ghost before = pair_views(written@);
        written.push((full_text, content.clone()));
        assert(pair_views(written@) =~= before.push((full@, content@)));
        i = i + 1;
    }
    Ok(written)
}


// ---------------------------------------------------------------------------------------
// Laws
// ---------------------------------------------------------------------------------------

/// A path under the folder: the folder, `/`, and a relative path that names a file and never
/// climbs.
pub open spec fn under_folder(folder: Seq<char>, path: Seq<char>) -> bool {
    exists|relative: Seq<char>| path == folder + "/"@ + relative && !bad_relative(relative)
}

proof fn lemma_sidecar_state(files: Seq<(String, JsonValue)>, folder: Seq<char>, k: int)
    ensures
        sidecar_state(files, folder, k) matches Ok((w, b)) ==> {
            &&& b <= 262144
            &&& w.len() <= if k < 0 { 0 } else { k }
            &&& forall|i: int| 0 <= i < w.len() ==> under_folder(folder, #[trigger] w[i].0)
            &&& forall|i: int, j: int| 0 <= i < j < w.len() ==> #[trigger] w[i].0 != #[trigger] w[j].0
        },
    decreases k,
{
    if k > 0 {
        lemma_sidecar_state(files, folder, k - 1);
        match sidecar_state(files, folder, k - 1) {
            Ok((w, b)) => {
                let path = files[k - 1].0@;
                match files[k - 1].1 {
                    JsonValue::Str(content) => {
                        let relative = without_dot_slash(path);
                        let full = folder + "/"@ + relative;
                        if !bad_relative(relative) && !(exists|i: int|
                            0 <= i < w.len() && (#[trigger] w[i]).0 == full) {
                            let w2 = w.push((full, content@));
                            assert(under_folder(folder, full));
                            assert forall|i: int, j: int| 0 <= i < j < w2.len() implies #[trigger] w2[i].0
                                != #[trigger] w2[j].0 by {
                                if j == w.len() {
                                    assert(w2[i] == w[i]);
                                }
                            }
                            assert forall|i: int| 0 <= i < w2.len() implies under_folder(folder, #[trigger] w2[i].0) by {
                                if i < w.len() {
                                    assert(w2[i] == w[i]);
                                }
                            }
                        }
                    },
                    _ => {},
                }
            },
            Err(_) => {},
        }
    }
}

/// The files a proposal carries stay beside its manifest: each is written under the manifest's
/// folder at a relative path that names a file and never climbs with `..`, no path is written
/// twice, there are at most 16 of them and at most 262144 bytes together.
pub proof fn sidecars_stay_beside(files: Option<JsonValue>, manifest_path: Seq<char>)
    ensures
        sidecars_of(files, manifest_path) matches Ok(w) ==> {
            &&& w.len() <= 16
            &&& forall|i: int| 0 <= i < w.len() ==> under_folder(folder_of(manifest_path), #[trigger] w[i].0)
            &&& forall|i: int, j: int| 0 <= i < j < w.len() ==> #[trigger] w[i].0 != #[trigger] w[j].0
        },
{
    match files {
        Some(JsonValue::Object(m)) => {
            lemma_sidecar_state(m@, folder_of(manifest_path), m@.len() as int);
        },
        _ => {},
    }
}

// ---------------------------------------------------------------------------------------
// Pipelines in the first shape
// ---------------------------------------------------------------------------------------

/// A Pipeline in the first shape: a `source` and a `targetEndpoint`, and none of the second
/// shape's `sources`, `steps` or `outputs`.
pub open spec fn first_shape(body: JsonValue) -> bool {
    &&& get_text(body, "kind"@) == Some("Pipeline"@)
    &&& get(body, "spec"@) matches Some(JsonValue::Object(m)) && member(m@, "sources"@) is None
        && member(m@, "steps"@) is None && member(m@, "outputs"@) is None && member(m@, "source"@) is Some
        && member(m@, "targetEndpoint"@) is Some
}

/// The members a first-shape spec moves.
pub open spec fn moved_key(k: Seq<char>) -> bool {
    k == "source"@ || k == "compute"@ || k == "targetEndpoint"@ || k == "output"@ || k == "sources"@
        || k == "steps"@ || k == "outputs"@
}

/// A member of the one output: what the old `output` object says, and the old `targetEndpoint`
/// where it says nothing of that.
pub open spec fn output_member(m: Seq<(String, JsonValue)>, k: Seq<char>) -> Option<JsonValue> {
    let written = match member(m, "output"@) {
        Some(JsonValue::Object(w)) => w@,
        _ => Seq::empty(),
    };
    match member(written, k) {
        Some(v) => Some(v),
        None => if k == "targetEndpoint"@ {
            member(m, "targetEndpoint"@)
        } else {
            None
        },
    }
}

/// The one output of a rewritten spec.
pub open spec fn one_output(o: JsonValue, m: Seq<(String, JsonValue)>) -> bool {
    o matches JsonValue::Object(w) && forall|k: Seq<char>| #[trigger] member(w@, k) == output_member(m, k)
}

/// A first-shape spec `m`, written as the second: `source` as `sources: [source]`, `compute`
/// as `steps: [compute]`, `targetEndpoint` with its `output` as `outputs: [{...}]`, everything
/// else as it was.
pub open spec fn spec_rewritten(m: Seq<(String, JsonValue)>, n: Seq<(String, JsonValue)>) -> bool {
    &&& member(n, "sources"@) matches Some(JsonValue::Array(a)) && a@ == seq![member(m, "source"@)->0]
    &&& match member(m, "compute"@) {
        Some(c) => member(n, "steps"@) matches Some(JsonValue::Array(a)) && a@ == seq![c],
        None => member(n, "steps"@) is None,
    }
    &&& member(n, "outputs"@) matches Some(JsonValue::Array(a)) && a@.len() == 1 && one_output(a@[0], m)
    &&& member(n, "source"@) is None && member(n, "compute"@) is None
    &&& member(n, "targetEndpoint"@) is None && member(n, "output"@) is None
    &&& forall|k: Seq<char>| !moved_key(k) ==> #[trigger] member(n, k) == member(m, k)
}

/// A first-shape Pipeline, written as the second at `v1alpha2`; every other member of the
/// body as it was.
pub open spec fn rewritten(old: JsonValue, new: JsonValue) -> bool {
    &&& new is Object
    &&& get_text(new, "apiVersion"@) == Some("joinedcontext.com/v1alpha2"@)
    &&& forall|k: Seq<char>| k != "apiVersion"@ && k != "spec"@ ==> #[trigger] get(new, k) == get(old, k)
    &&& get(old, "spec"@) matches Some(JsonValue::Object(m)) && get(new, "spec"@) matches Some(
        JsonValue::Object(n),
    ) && spec_rewritten(m@, n@)
}

proof fn lemma_moved_keys_differ()
    ensures
        "source"@ != "sources"@ && "source"@ != "compute"@ && "source"@ != "steps"@,
        "source"@ != "targetEndpoint"@ && "source"@ != "output"@ && "source"@ != "outputs"@,
        "sources"@ != "compute"@ && "sources"@ != "steps"@ && "sources"@ != "targetEndpoint"@,
        "sources"@ != "output"@ && "sources"@ != "outputs"@,
        "compute"@ != "steps"@ && "compute"@ != "targetEndpoint"@ && "compute"@ != "output"@,
        "compute"@ != "outputs"@,
        "steps"@ != "targetEndpoint"@ && "steps"@ != "output"@ && "steps"@ != "outputs"@,
        "targetEndpoint"@ != "output"@ && "targetEndpoint"@ != "outputs"@,
        "output"@ != "outputs"@,
{
    reveal_strlit("source");
    reveal_strlit("sources");
    reveal_strlit("compute");
    reveal_strlit("steps");
    reveal_strlit("targetEndpoint");
    reveal_strlit("output");
    reveal_strlit("outputs");
    assert("source"@.len() == 6);
    assert("sources"@.len() == 7);
    assert("compute"@.len() == 7);
    assert("steps"@.len() == 5);
    assert("targetEndpoint"@.len() == 14);
    assert("output"@.len() == 6);
    assert("outputs"@.len() == 7);
    assert("source"@[0] != "output"@[0]);
    assert("sources"@[0] != "compute"@[0]);
    assert("sources"@[0] != "outputs"@[0]);
    assert("compute"@[0] != "outputs"@[0]);
}

fn has_member(m: &Vec<(String, JsonValue)>, key: &str) -> (b: bool)
    ensures
        b == member(m@, key@) is Some,
{
    let k = chars_of(key);
    crate::json::lookup(m, k.as_slice()).is_some()
}

/// The members of `written` laid over `output`, as `Map::extend` lays them: what `written`
/// says of a name wins.
fn extend_members(output: &mut Vec<(String, JsonValue)>, written: Vec<(String, JsonValue)>)
    ensures
        forall|k: Seq<char>| #[trigger] member(final(output)@, k) == match member(written@, k) {
            Some(v) => Some(v),
            None => member(old(output)@, k),
        },
{
    let ghost w = written@;
    let ghost start = output@;
    let mut rest = written;
    assert(w.skip(w.len() as int) =~= Seq::<(String, JsonValue)>::empty());
    while rest.len() > 0
        invariant
            rest@ == w.take(rest@.len() as int),
            rest@.len() <= w.len(),
            forall|k: Seq<char>| #[trigger] member(output@, k) == match member(w.skip(rest@.len() as int), k) {
                Some(v) => Some(v),
                None => member(start, k),
            },
        decreases rest@.len(),
    {
        let ghost n = rest@.len() as int;
        let x = rest.pop().unwrap();
        proof {
            assert(rest@ =~= w.take(n - 1));
            assert(x == w[n - 1]);
            assert(w.skip(n - 1) =~= seq![x] + w.skip(n));
        }
        let ghost before = output@;
        let (key, value) = x;
        set_member(output, key.as_str(), value);
        proof {
            assert forall|k: Seq<char>| #[trigger] member(output@, k) == match member(w.skip(n - 1), k) {
                Some(v) => Some(v),
                None => member(start, k),
            } by {
                crate::json_edit::lemma_member_concat(seq![x], w.skip(n), k);
                crate::json_edit::lemma_member_single(x, k);
                assert(member(before, k) == match member(w.skip(n), k) {
                    Some(v) => Some(v),
                    None => member(start, k),
                });
            }
        }
    }
    assert(w.skip(0) =~= w);
}

fn text_value(s: &str) -> (v: JsonValue)
    ensures
        v matches JsonValue::Str(t) && t@ == s@,
{
    let c = chars_of(s);
    JsonValue::Str(string_of(c.as_slice()))
}

/// A Pipeline sent in the first shape, rewritten as the second at `v1alpha2`. Anything already
/// in the second shape, mixed, or with no `source` (its input lives in `bento.yaml`, which the
/// second shape has no place for) is left as it came, for validation to judge.
pub fn pipeline_second_shape(body: &mut JsonValue)
    ensures
        !first_shape(*old(body)) ==> *final(body) == *old(body),
        first_shape(*old(body)) ==> rewritten(*old(body), *final(body)),
{
    let is_pipeline = match body.text_at("kind") {
        Some(k) => str_eq(k.as_str(), "Pipeline"),
        None => false,
    };
    if !is_pipeline {
        return;
    }
    let shaped = match body.get_member("spec") {
        Some(JsonValue::Object(m)) => !has_member(m, "sources") && !has_member(m, "steps")
            && !has_member(m, "outputs") && has_member(m, "source") && has_member(m, "targetEndpoint"),
        _ => false,
    };
    if !shaped {
        return;
    }
    let ghost old_body = *body;
    let mut taken = JsonValue::Null;
    std::mem::swap(&mut taken, body);
    let mut top = match taken {
        JsonValue::Object(t) => t,
        other => {
            *body = other;
            return;
        },
    };
    let ghost old_top = top@;
    let spec_taken = take_member(&mut top, "spec");
    let ghost st = spec_taken;
    let mut m = match spec_taken {
        Some(JsonValue::Object(m)) => m,
        _ => {
            proof {
                assert(false);
            }
            *body = JsonValue::Null;
            return;
        },
    };
    let ghost old_m = m@;
    let ghost after_spec = top@;
    proof {
        lemma_moved_keys_differ();
    }
    let src = take_member(&mut m, "source");
    let ghost ma = m@;
    match src {
        Some(s) => {
            let mut a: Vec<JsonValue> = Vec::new();
            a.push(s);
            set_member(&mut m, "sources", JsonValue::Array(a));
        },
        None => {},
    }
    let ghost m1 = m@;
    let cmp = take_member(&mut m, "compute");
    let ghost mb = m@;
    match cmp {
        Some(c) => {
            let mut a: Vec<JsonValue> = Vec::new();
            a.push(c);
            set_member(&mut m, "steps", JsonValue::Array(a));
        },
        None => {},
    }
    let ghost m2 = m@;
    let mut output: Vec<(String, JsonValue)> = Vec::new();
    let target = take_member(&mut m, "targetEndpoint");
    let ghost t_g = target;
    match target {
        Some(t) => set_member(&mut output, "targetEndpoint", t),
        None => {},
    }
    let ghost m3 = m@;
    let ghost out1 = output@;
    let written = take_member(&mut m, "output");
    let ghost w_g = written;
    match written {
        Some(JsonValue::Object(w)) => extend_members(&mut output, w),
        _ => {},
    }
    let ghost m4 = m@;
    let ghost out = output@;
    let mut outs: Vec<JsonValue> = Vec::new();
    outs.push(JsonValue::Object(output));
    set_member(&mut m, "outputs", JsonValue::Array(outs));
    let ghost new_m = m@;
    let ghost new_spec = JsonValue::Object(m);
    set_member(&mut top, "spec", JsonValue::Object(m));
    let ghost with_spec = top@;
    let version = text_value("joinedcontext.com/v1alpha2");
    let ghost v_g = version;
    set_member(&mut top, "apiVersion", version);
    let ghost final_top = top@;
    *body = JsonValue::Object(top);
    proof {
        reveal_strlit("spec");
        reveal_strlit("apiVersion");
        assert("spec"@.len() == 4);
        assert("apiVersion"@.len() == 10);
        assert(member(final_top, "spec"@) == Some(new_spec));
        assert(member(final_top, "apiVersion"@) == Some(v_g));
        assert(st == get(old_body, "spec"@));
        assert forall|k: Seq<char>| k != "apiVersion"@ && k != "spec"@ implies #[trigger] get(*body, k) == get(old_body, k) by {
            assert(member(final_top, k) == member(with_spec, k));
            assert(member(with_spec, k) == member(after_spec, k));
            assert(member(after_spec, k) == member(old_top, k));
        }
        assert(member(m1, "targetEndpoint"@) == member(old_m, "targetEndpoint"@));
        assert(member(m2, "targetEndpoint"@) == member(m1, "targetEndpoint"@));
        assert(t_g == member(old_m, "targetEndpoint"@));
        assert(member(m1, "output"@) == member(old_m, "output"@));
        assert(member(m2, "output"@) == member(m1, "output"@));
        assert(member(m3, "output"@) == member(m2, "output"@));
        assert(w_g == member(old_m, "output"@));
        assert forall|k: Seq<char>| #[trigger] member(out1, k) == (if k == "targetEndpoint"@ {
            member(old_m, "targetEndpoint"@)
        } else {
            None
        }) by {
            if t_g is None {
                assert(out1 =~= Seq::<(String, JsonValue)>::empty());
            }
        }
        assert forall|k: Seq<char>| #[trigger] member(out, k) == output_member(old_m, k) by {
            match w_g {
                Some(JsonValue::Object(w)) => {},
                _ => {
                    assert(out == out1);
                    assert(member(Seq::<(String, JsonValue)>::empty(), k) is None);
                },
            }
        }
        assert forall|k: Seq<char>| !moved_key(k) implies #[trigger] member(new_m, k) == member(old_m, k) by {
            assert(member(m1, k) == member(old_m, k));
            assert(member(m2, k) == member(m1, k));
            assert(member(m3, k) == member(m2, k));
            assert(member(m4, k) == member(m3, k));
        }
        assert(member(m1, "sources"@) matches Some(JsonValue::Array(a)) && a@ == seq![member(old_m, "source"@)->0]);
        assert(member(new_m, "sources"@) == member(m1, "sources"@)) by {
            assert(member(m2, "sources"@) == member(m1, "sources"@));
            assert(member(m3, "sources"@) == member(m2, "sources"@));
            assert(member(m4, "sources"@) == member(m3, "sources"@));
        }
        assert(member(m1, "compute"@) == member(old_m, "compute"@));
        assert(member(new_m, "steps"@) == member(m2, "steps"@)) by {
            assert(member(m3, "steps"@) == member(m2, "steps"@));
            assert(member(m4, "steps"@) == member(m3, "steps"@));
        }
        assert(member(new_m, "source"@) is None) by {
            assert(member(m1, "source"@) is None);
            assert(member(m2, "source"@) is None);
            assert(member(m3, "source"@) is None);
            assert(member(m4, "source"@) is None);
        }
        assert(member(new_m, "compute"@) is None) by {
            assert(member(m2, "compute"@) is None);
            assert(member(m3, "compute"@) is None);
            assert(member(m4, "compute"@) is None);
        }
        assert(member(new_m, "targetEndpoint"@) is None) by {
            assert(member(m3, "targetEndpoint"@) is None);
            assert(member(m4, "targetEndpoint"@) is None);
        }
        assert(member(new_m, "output"@) is None) by {
            assert(member(m4, "output"@) is None);
        }
        assert(spec_rewritten(old_m, new_m));
    }
}

// ---------------------------------------------------------------------------------------
// Where a manifest is filed
// ---------------------------------------------------------------------------------------

/// The kinds filed under the space their `contextSpaceRef` names.
pub open spec fn filed_by_reference(kind: Seq<char>) -> bool {
    kind == "Endpoint"@ || kind == "DataModel"@ || kind == "Subscription"@
}

/// The space a manifest is filed under: its `joinedcontext.com/space` label; else, for a kind
/// filed by reference, the space its `contextSpaceRef` names; else its namespace.
pub open spec fn filing_space_of(env: Envelope, kind: Seq<char>) -> Option<Seq<char>> {
    match entry(env.metadata.labels@, "joinedcontext.com/space"@) {
        Some(s) => Some(s),
        None => {
            let by_ref = if filed_by_reference(kind) {
                match get(env.spec, "contextSpaceRef"@) {
                    Some(r) => ref_name_of(r),
                    None => None,
                }
            } else {
                None
            };
            match by_ref {
                Some(s) => Some(s),
                None => match env.metadata.namespace {
                    Some(n) => Some(n@),
                    None => None,
                },
            }
        },
    }
}

/// The space a manifest of this kind is filed under, as the repository lays it out.
pub fn filing_space(env: &Envelope, kind: &str) -> (r: Option<String>)
    ensures
        match r {
            Some(s) => filing_space_of(*env, kind@) == Some(s@),
            None => filing_space_of(*env, kind@) is None,
        },
{
    if let Some(s) = entry_of(&env.metadata.labels, "joinedcontext.com/space") {
        return Some(s.clone());
    }
    let by_ref = str_eq(kind, "Endpoint") || str_eq(kind, "DataModel") || str_eq(kind, "Subscription");
    if by_ref {
        if let Some(r) = env.spec.get_member("contextSpaceRef") {
            if let Some(s) = ref_name(r) {
                return Some(s);
            }
        }
    }
    match &env.metadata.namespace {
        Some(n) => Some(n.clone()),
        None => None,
    }
}

// ---------------------------------------------------------------------------------------
// What a body is written in
// ---------------------------------------------------------------------------------------

/// The notations a request body is read in.
#[derive(Debug, Clone, Copy, PartialEq, Eq, Structural)]
pub enum BodyFormat {
    Json,
    Yaml,
}

/// The media type of a `Content-Type` value: what comes before its first `;`, trimmed.
pub open spec fn media_type(content_type: Seq<char>) -> Seq<char> {
    trimmed(split(content_type, ';')[0])
}

fn media_type_of(content_type: &str) -> (m: Vec<char>)
    ensures
        m@ == media_type(content_type@),
{
    let c = chars_of(content_type);
    let parts = split_chars(c.as_slice(), ';');
    proof {
        crate::text::lemma_split_nonempty(content_type@, ';');
    }
    trim_chars(parts[0].as_slice())
}

fn media_refusal(head: &str, mime: &[char], tail: &str) -> (e: ApiError)
    ensures
        e matches ApiError::UnsupportedMediaType(m) && m@ == head@ + mime@ + tail@,
{
    let mut m: Vec<char> = chars_of(head);
    append_chars(&mut m, mime);
    append_str(&mut m, tail);
    ApiError::UnsupportedMediaType(string_of(m.as_slice()))
}

/// The notation of a create or replace body: JSON when the `Content-Type` is absent, empty,
/// `application/json` or `text/json`; YAML for `application/yaml`, `application/x-yaml` or
/// `text/yaml`; anything else is refused with 415.
pub open spec fn body_format_of(content_type: Option<Seq<char>>) -> Option<BodyFormat> {
    let mime = match content_type {
        Some(c) => media_type(c),
        None => "application/json"@,
    };
    if mime.len() == 0 || mime == "application/json"@ || mime == "text/json"@ {
        Some(BodyFormat::Json)
    } else if mime == "application/yaml"@ || mime == "application/x-yaml"@ || mime == "text/yaml"@ {
        Some(BodyFormat::Yaml)
    } else {
        None
    }
}

/// The notation a create or replace body is read in.
pub fn body_format(content_type: Option<&str>) -> (r: Result<BodyFormat, ApiError>)
    ensures
        match body_format_of(
            match content_type {
                Some(c) => Some(c@),
                None => None,
            },
        ) {
            Some(f) => r == Ok::<BodyFormat, ApiError>(f),
            None => r matches Err(ApiError::UnsupportedMediaType(m)) && m@ == "content type '"@
                + media_type(content_type->0@)
                + "' is not supported; expected application/json or application/yaml"@,
        },
{
    let mime = match content_type {
        Some(c) => media_type_of(c),
        None => chars_of("application/json"),
    };
    let m = mime.as_slice();
    let json = chars_of("application/json");
    let tjson = chars_of("text/json");
    let yaml = chars_of("application/yaml");
    let xyaml = chars_of("application/x-yaml");
    let tyaml = chars_of("text/yaml");
    if m.len() == 0 || seq_eq(m, json.as_slice()) || seq_eq(m, tjson.as_slice()) {
        Ok(BodyFormat::Json)
    } else if seq_eq(m, yaml.as_slice()) || seq_eq(m, xyaml.as_slice()) || seq_eq(m, tyaml.as_slice()) {
        Ok(BodyFormat::Yaml)
    } else {
        proof {
            reveal_strlit("application/json");
            if content_type is None {
                assert(mime@ == "application/json"@);
            }
        }
        Err(media_refusal("content type '", m, "' is not supported; expected application/json or application/yaml"))
    }
}

/// The notation of a PATCH body: a JSON merge patch for `application/merge-patch+json`, a YAML
/// apply patch for `application/apply-patch+yaml`; anything else, an absent type included, is
/// refused with 415.
pub open spec fn patch_format_of(content_type: Option<Seq<char>>) -> Option<BodyFormat> {
    let mime = match content_type {
        Some(c) => media_type(c),
        None => Seq::empty(),
    };
    if mime == "application/merge-patch+json"@ {
        Some(BodyFormat::Json)
    } else if mime == "application/apply-patch+yaml"@ {
        Some(BodyFormat::Yaml)
    } else {
        None
    }
}

/// The notation a PATCH body is read in.
pub fn patch_format(content_type: Option<&str>) -> (r: Result<BodyFormat, ApiError>)
    ensures
        match patch_format_of(
            match content_type {
                Some(c) => Some(c@),
                None => None,
            },
        ) {
            Some(f) => r == Ok::<BodyFormat, ApiError>(f),
            None => r matches Err(ApiError::UnsupportedMediaType(m)) && m@ == "content type '"@
                + (match content_type {
                Some(c) => media_type(c@),
                None => Seq::empty(),
            })
                + "' is not supported for PATCH; expected application/merge-patch+json or application/apply-patch+yaml"@,
        },
{
    let mime = match content_type {
        Some(c) => media_type_of(c),
        None => Vec::new(),
    };
    let m = mime.as_slice();
    let merge = chars_of("application/merge-patch+json");
    let apply = chars_of("application/apply-patch+yaml");
    if seq_eq(m, merge.as_slice()) {
        Ok(BodyFormat::Json)
    } else if seq_eq(m, apply.as_slice()) {
        Ok(BodyFormat::Yaml)
    } else {
        Err(media_refusal(
            "content type '",
            m,
            "' is not supported for PATCH; expected application/merge-patch+json or application/apply-patch+yaml",
        ))
    }
}


// ---------------------------------------------------------------------------------------
// The envelope a proposal is admitted with
// ---------------------------------------------------------------------------------------

pub open spec fn kind_mismatch(kind: Seq<char>, plural: Seq<char>, expected: Seq<char>) -> Seq<char> {
    "kind '"@ + kind + "' does not match plural '"@ + plural + "' (expected '"@ + expected + "')"@
}

pub open spec fn name_mismatch(name: Seq<char>, path_name: Seq<char>) -> Seq<char> {
    "metadata.name '"@ + name + "' does not match path '"@ + path_name + "'"@
}

pub open spec fn namespace_mismatch(namespace: Seq<char>, project: Seq<char>) -> Seq<char> {
    "metadata.namespace '"@ + namespace + "' does not match project '"@ + project + "'"@
}

/// Why a proposed envelope is refused, in the order it is checked: its kind is not the one the
/// route's plural names, its name is not the one in the path, or it names another project.
pub open spec fn envelope_refusal(env: Envelope, plural: Seq<char>, expected_kind: Seq<char>, path_name: Option<Seq<char>>, project: Seq<char>) -> Option<Seq<char>> {
    if env.kind@ != expected_kind {
        Some(kind_mismatch(env.kind@, plural, expected_kind))
    } else if path_name is Some && env.metadata.name@ != path_name->0 {
        Some(name_mismatch(env.metadata.name@, path_name->0))
    } else {
        match env.metadata.namespace {
            Some(ns) => if ns@.len() == 0 || ns@ == project {
                None
            } else {
                Some(namespace_mismatch(ns@, project))
            },
            None => None,
        }
    }
}

fn framed5(a: &str, b: &str, c: &str, d: &str, e: &str) -> (s: String)
    ensures
        s@ == a@ + b@ + c@ + d@ + e@,
{
    let mut m = chars_of(a);
    append_str(&mut m, b);
    append_str(&mut m, c);
    append_str(&mut m, d);
    append_str(&mut m, e);
    string_of(m.as_slice())
}

fn framed7(a: &str, b: &str, c: &str, d: &str, e: &str, f: &str, g: &str) -> (s: String)
    ensures
        s@ == a@ + b@ + c@ + d@ + e@ + f@ + g@,
{
    let mut m = chars_of(a);
    append_str(&mut m, b);
    append_str(&mut m, c);
    append_str(&mut m, d);
    append_str(&mut m, e);
    append_str(&mut m, f);
    append_str(&mut m, g);
    string_of(m.as_slice())
}

/// A proposed envelope checked against the route that received it; one that names no project,
/// or an empty one, is filed in the route's project.
pub fn admit_envelope(
    env: &mut Envelope,
    plural: &str,
    expected_kind: &str,
    path_name: Option<&str>,
    project: &str,
) -> (r: Result<(), ApiError>)
    ensures
        match envelope_refusal(
            *old(env),
            plural@,
            expected_kind@,
            match path_name {
                Some(n) => Some(n@),
                None => None,
            },
            project@,
        ) {
            Some(m) => r matches Err(ApiError::BadRequest(e)) && e@ == m && *final(env) == *old(env),
            None => r is Ok && final(env).kind == old(env).kind && final(env).api_version == old(env).api_version
                && final(env).spec == old(env).spec && final(env).phase == old(env).phase
                && final(env).metadata.name == old(env).metadata.name && final(env).metadata.labels
                == old(env).metadata.labels && final(env).metadata.annotations == old(env).metadata.annotations
                && final(env).metadata.title == old(env).metadata.title && final(env).metadata.description
                == old(env).metadata.description && (match final(env).metadata.namespace {
                Some(ns) => ns@ == match old(env).metadata.namespace {
                    Some(o) => if o@.len() == 0 {
                        project@
                    } else {
                        o@
                    },
                    None => project@,
                },
                None => false,
            }),
        },
{
    if !str_eq(env.kind.as_str(), expected_kind) {
        return Err(ApiError::BadRequest(framed7("kind '", env.kind.as_str(), "' does not match plural '", plural, "' (expected '", expected_kind, "')")));
    }
    if let Some(n) = path_name {
        if !str_eq(env.metadata.name.as_str(), n) {
            return Err(ApiError::BadRequest(framed5("metadata.name '", env.metadata.name.as_str(), "' does not match path '", n, "'")));
        }
    }
    let fill = match &env.metadata.namespace {
        Some(ns) => {
            if chars_of(ns.as_str()).len() == 0 {
                true
            } else if str_eq(ns.as_str(), project) {
                false
            } else {
                return Err(ApiError::BadRequest(framed5("metadata.namespace '", ns.as_str(), "' does not match project '", project, "'")));
            }
        },
        None => true,
    };
    if fill {
        env.metadata.namespace = Some(string_of(chars_of(project).as_slice()));
    }
    Ok(())
}

/// The commit message and the title of a proposal, and the body of its merge request.
pub open spec fn proposal_texts_of(operation: Operation, kind: Seq<char>, name: Seq<char>, project: Seq<char>) -> (Seq<char>, Seq<char>) {
    (
        operation_word(operation) + " "@ + kind + " "@ + name,
        "Proposed "@ + operation_word(operation) + " of "@ + kind + " `"@ + name + "` in project `"@ + project
            + "` via joinedcontext Portal."@,
    )
}

pub fn proposal_texts(operation: Operation, kind: &str, name: &str, project: &str) -> (r: (String, String))
    ensures
        (r.0@, r.1@) == proposal_texts_of(operation, kind@, name@, project@),
{
    let word = operation_text(operation);
    let title = framed5(word, " ", kind, " ", name);
    let mut body = chars_of("Proposed ");
    append_str(&mut body, word);
    append_str(&mut body, " of ");
    append_str(&mut body, kind);
    append_str(&mut body, " `");
    append_str(&mut body, name);
    append_str(&mut body, "` in project `");
    append_str(&mut body, project);
    append_str(&mut body, "` via joinedcontext Portal.");
    (title, string_of(body.as_slice()))
}

/// One open change per resource: a second proposal while one is pending is refused, naming
/// the change to decide first.
pub fn pending_change(kind: &str, name: &str, pending: &str) -> (e: ApiError)
    ensures
        e matches ApiError::Conflict(m) && m@ == "a change for "@ + kind@ + " '"@ + name@ + "' is already open: "@
            + pending@ + "; approve or reject it first"@,
{
    ApiError::Conflict(framed7("a change for ", kind, " '", name, "' is already open: ", pending, "; approve or reject it first"))
}


// ---------------------------------------------------------------------------------------
// What a proposal must pass before anything is written
// ---------------------------------------------------------------------------------------

/// A refusal as a caller reads it: its status and its words.
pub enum Refusal {
    NotFound(Seq<char>),
    BadRequest(Seq<char>),
    Denied(Seq<char>),
}

pub open spec fn refusal_of(e: ApiError) -> Option<Refusal> {
    match e {
        ApiError::NotFound(m) => Some(Refusal::NotFound(m@)),
        ApiError::BadRequest(m) => Some(Refusal::BadRequest(m@)),
        ApiError::Denied(m) => Some(Refusal::Denied(m@)),
        _ => None,
    }
}

pub open spec fn status_computed() -> Seq<char> {
    "status is computed by the platform and cannot be specified in the manifest (MF-04)"@
}

pub open spec fn build_lane_only() -> Seq<char> {
    "status.build is written by the build lane when it publishes the artifact: the one role whose propose on App is constrained to that field writes it, and nobody else (AP-13a, AP-73)"@
}

/// The one status a proposal may carry: an App's `status.build`, alone and not null, from the
/// role the build lane is (`may_write_build`). Anything else about `status` is refused.
pub open spec fn build_write_verdict(kind: Seq<char>, body: JsonValue, may_write_build: bool) -> Option<Refusal> {
    let build_only = match get(body, "status"@) {
        Some(JsonValue::Object(m)) => m@.len() == 1 && m@[0].0@ == "build"@ && !(m@[0].1 is Null),
        _ => false,
    };
    if kind != "App"@ || !build_only {
        Some(Refusal::BadRequest(status_computed()))
    } else if !may_write_build {
        Some(Refusal::Denied(build_lane_only()))
    } else {
        None
    }
}

pub fn build_lane_write(kind: &str, body: &JsonValue, may_write_build: bool) -> (r: Result<(), ApiError>)
    ensures
        match build_write_verdict(kind@, *body, may_write_build) {
            Some(v) => r is Err && refusal_of(r->Err_0) == Some(v),
            None => r is Ok,
        },
{
    let computed = || -> (e: ApiError)
        ensures
            refusal_of(e) == Some(Refusal::BadRequest(status_computed())),
    {
        ApiError::BadRequest(string_of(chars_of(
            "status is computed by the platform and cannot be specified in the manifest (MF-04)",
        ).as_slice()))
    };
    if !str_eq(kind, "App") {
        return Err(computed());
    }
    let build_only = match body.get_member("status") {
        Some(JsonValue::Object(m)) => {
            if m.len() == 1 {
                let k = chars_of(m[0].0.as_str());
                let b = chars_of("build");
                seq_eq(k.as_slice(), b.as_slice()) && !matches!(m[0].1, JsonValue::Null)
            } else {
                false
            }
        },
        _ => false,
    };
    if !build_only {
        return Err(computed());
    }
    if !may_write_build {
        return Err(ApiError::Denied(string_of(chars_of(
            "status.build is written by the build lane when it publishes the artifact: the one role whose propose on App is constrained to that field writes it, and nobody else (AP-13a, AP-73)",
        ).as_slice())));
    }
    Ok(())
}

/// The first of the build lane's annotations (`built`, in order) that the manifest sets.
pub open spec fn first_built(built: Seq<Seq<char>>, annotations: Seq<(String, String)>) -> Option<Seq<char>>
    decreases built.len(),
{
    if built.len() == 0 {
        None
    } else if entry(annotations, built[0]) is Some {
        Some(built[0])
    } else {
        first_built(built.drop_first(), annotations)
    }
}

/// What a proposal's checks answer, in the order they are made: an unknown plural; an
/// `apiVersion` this platform does not serve; the envelope against its route (kind, name,
/// namespace); the metadata's own problem; a `status` other than the build lane's; a literal
/// secret; an annotation only the build lane writes; a kind the platform does not define.
pub open spec fn propose_verdict(
    body: JsonValue,
    env: Envelope,
    catalogue: Seq<KindInfo>,
    project: Seq<char>,
    plural: Seq<char>,
    path_name: Option<Seq<char>>,
    version_served: bool,
    expected_version: Seq<char>,
    meta_problem: Option<Seq<char>>,
    built: Seq<Seq<char>>,
    kind_defined: bool,
    may_write_build: bool,
) -> Option<Refusal> {
    match crate::resource::kind_by_plural(catalogue, plural) {
        None => Some(Refusal::NotFound("plural '"@ + plural + "' not found in project '"@ + project + "'"@)),
        Some(kind) => if !version_served {
            Some(
                Refusal::BadRequest(
                    "apiVersion '"@ + env.api_version@ + "' is not supported (expected '"@ + expected_version
                        + "')"@,
                ),
            )
        } else if envelope_refusal(env, plural, kind, path_name, project) is Some {
            Some(Refusal::BadRequest(envelope_refusal(env, plural, kind, path_name, project)->0))
        } else if meta_problem is Some {
            Some(Refusal::BadRequest(meta_problem->0))
        } else if (get(body, "status"@) is Some || env.phase is Some) && build_write_verdict(
            kind,
            body,
            may_write_build,
        ) is Some {
            build_write_verdict(kind, body, may_write_build)
        } else if literal_secret(body) is Some {
            Some(
                Refusal::BadRequest(
                    "literal secret in field '"@ + literal_secret(body)->0
                        + "' is forbidden; use secretRef instead (MF-24)"@,
                ),
            )
        } else if first_built(built, env.metadata.annotations@) is Some {
            Some(
                Refusal::BadRequest(
                    "annotation '"@ + first_built(built, env.metadata.annotations@)->0
                        + "' is written by the build lane when it publishes an image and cannot be set in a proposal (AP-11, AP-13a)"@,
                ),
            )
        } else if !kind_defined {
            Some(
                Refusal::BadRequest(
                    "kind '"@ + kind
                        + "' is declared but not defined by the platform yet, and a repository holding one stops loading for every component; it cannot be written (CC-72, T-0833)"@,
                ),
            )
        } else {
            None
        },
    }
}

/// The envelope a proposal goes on with: the same manifest, filed in the route's project when
/// it names none.
pub open spec fn filled_in(before: Envelope, after: Envelope, project: Seq<char>) -> bool {
    &&& after.kind == before.kind
    &&& after.api_version == before.api_version
    &&& after.spec == before.spec
    &&& after.phase == before.phase
    &&& after.metadata.name == before.metadata.name
    &&& after.metadata.labels == before.metadata.labels
    &&& after.metadata.annotations == before.metadata.annotations
    &&& after.metadata.title == before.metadata.title
    &&& after.metadata.description == before.metadata.description
    &&& after.metadata.namespace matches Some(ns) && ns@ == match before.metadata.namespace {
        Some(o) => if o@.len() == 0 {
            project
        } else {
            o@
        },
        None => project,
    }
}

/// A proposal that passed its checks: the envelope it goes on with, and whether it is the
/// build lane's write of `status.build` (which keeps its status).
pub struct ProposePlan {
    pub envelope: Envelope,
    pub build_write: bool,
    /// The commit message and title of the change, and the body of its merge request.
    pub title: String,
    pub body: String,
}

fn first_built_of(built: &Vec<String>, annotations: &Vec<(String, String)>) -> (r: Option<String>)
    ensures
        opt_seq(r) == first_built(crate::json::views(built@), annotations@),
{
    let ghost bv = crate::json::views(built@);
    let mut i: usize = 0;
    assert(bv.subrange(0, bv.len() as int) =~= bv);
    while i < built.len()
        invariant
            i <= built@.len(),
            bv == crate::json::views(built@),
            first_built(bv, annotations@) == first_built(bv.subrange(i as int, bv.len() as int), annotations@),
        decreases built.len() - i,
    {
        let ghost rest = bv.subrange(i as int, bv.len() as int);
        assert(rest.drop_first() =~= bv.subrange(i + 1, bv.len() as int));
        assert(rest[0] == built@[i as int]@);
        if entry_of(annotations, built[i].as_str()).is_some() {
            return Some(built[i].clone());
        }
        i = i + 1;
    }
    None
}

pub open spec fn opt_seq(s: Option<String>) -> Option<Seq<char>> {
    match s {
        Some(x) => Some(x@),
        None => None,
    }
}

/// The checks a proposal passes before anything is written, in the order they are made, with
/// the answers of the platform's own definitions as arguments: whether it serves the
/// manifest's `apiVersion` (`expected_version` is the one it names), the metadata's problem,
/// the build lane's annotations, whether it defines the kind, and whether the caller is the
/// build lane.
pub fn propose_step(
    body: &JsonValue,
    envelope: Envelope,
    catalogue: &Vec<KindInfo>,
    project: &str,
    plural: &str,
    path_name: Option<&str>,
    operation: Operation,
    version_served: bool,
    expected_version: &str,
    meta_problem: Option<String>,
    built: &Vec<String>,
    kind_defined: bool,
    may_write_build: bool,
) -> (r: Result<ProposePlan, ApiError>)
    ensures
        match propose_verdict(
            *body,
            envelope,
            catalogue@,
            project@,
            plural@,
            match path_name {
                Some(n) => Some(n@),
                None => None,
            },
            version_served,
            expected_version@,
            opt_seq(meta_problem),
            crate::json::views(built@),
            kind_defined,
            may_write_build,
        ) {
            Some(v) => r is Err && refusal_of(r->Err_0) == Some(v),
            None => r is Ok && filled_in(envelope, r->Ok_0.envelope, project@) && r->Ok_0.build_write == (get(
                *body,
                "status"@,
            ) is Some || envelope.phase is Some) && (r->Ok_0.title@, r->Ok_0.body@) == proposal_texts_of(
                operation,
                envelope.kind@,
                envelope.metadata.name@,
                project@,
            ),
        },
{
    let p = chars_of(plural);
    let kind = match by_plural(catalogue, p.as_slice()) {
        Some(k) => k,
        None => {
            return Err(ApiError::NotFound(framed5("plural '", plural, "' not found in project '", project, "'")));
        },
    };
    if !version_served {
        return Err(ApiError::BadRequest(framed5(
            "apiVersion '",
            envelope.api_version.as_str(),
            "' is not supported (expected '",
            expected_version,
            "')",
        )));
    }
    let mut env = envelope;
    match admit_envelope(&mut env, plural, kind.as_str(), path_name, project) {
        Ok(()) => {},
        Err(e) => return Err(e),
    }
    if let Some(m) = meta_problem {
        return Err(ApiError::BadRequest(m));
    }
    let status_present = body.get_member("status").is_some() || env.phase.is_some();
    if status_present {
        match build_lane_write(kind.as_str(), body, may_write_build) {
            Ok(()) => {},
            Err(e) => return Err(e),
        }
    }
    if let Some(key) = find_literal_secret(body) {
        let mut m = chars_of("literal secret in field '");
        append_str(&mut m, key.as_str());
        append_str(&mut m, "' is forbidden; use secretRef instead (MF-24)");
        return Err(ApiError::BadRequest(string_of(m.as_slice())));
    }
    if let Some(key) = first_built_of(built, &env.metadata.annotations) {
        let mut m = chars_of("annotation '");
        append_str(&mut m, key.as_str());
        append_str(&mut m, "' is written by the build lane when it publishes an image and cannot be set in a proposal (AP-11, AP-13a)");
        return Err(ApiError::BadRequest(string_of(m.as_slice())));
    }
    if !kind_defined {
        let mut m = chars_of("kind '");
        append_str(&mut m, kind.as_str());
        append_str(&mut m, "' is declared but not defined by the platform yet, and a repository holding one stops loading for every component; it cannot be written (CC-72, T-0833)");
        return Err(ApiError::BadRequest(string_of(m.as_slice())));
    }
    let (title, text) = proposal_texts(operation, env.kind.as_str(), env.metadata.name.as_str(), project);
    Ok(ProposePlan { envelope: env, build_write: status_present, title, body: text })
}

} // verus!
