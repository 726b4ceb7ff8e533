//! Agent runs: what a request to start one must say, the pages and messages around a run, and
//! the `navigate` events a run may send the Portal.

use vstd::prelude::*;
use vstd::utf8::encode_utf8;
use crate::error::ApiError;
use crate::json::{get, get_text, views, JsonValue};
use crate::projects::{dns1123, is_dns1123};
use crate::resource::Envelope;
use crate::text::{
    append_str, chars_of, control, has_char, has_prefix, is_control, join, join_chars,
    starts_with, str_eq, string_of, trim_chars, trimmed,
};

verus! {

/// Query parameters for listing runs.
#[derive(Debug)]
pub struct ListRunsQuery {
    pub limit: Option<i64>,
    pub app: Option<String>,
    pub kind: Option<String>,
    pub status: Option<String>,
    pub mine: Option<bool>,
}

/// What a person says to a run that is already going.
#[derive(Debug)]
pub struct MessageRequest {
    pub text: String,
}

/// Where the workspace reads from, how far it has read, and how long it will wait.
#[derive(Debug)]
pub struct InboxQuery {
    pub after: i64,
    /// Seconds to hold the call open when there is nothing new, at most 25.
    pub wait: Option<u64>,
}

/// The sequence number a relayed event was given.
#[derive(Debug)]
pub struct EventReceipt {
    pub seq: i64,
}

/// Everything the proxy needs to decide one request, and nothing a workspace may see.
#[derive(Debug)]
pub struct RunContext {
    pub id: String,
    pub project: String,
    pub app_name: String,
    pub endpoint_slug: String,
    pub allows_write: bool,
    pub branch: String,
    pub path_prefix: String,
    pub status: String,
    pub ticket_hash: String,
    pub max_tokens: u64,
    pub allowed_hosts: Vec<String>,
    pub requests_per_minute: u32,
    pub max_response_bytes: u64,
    pub created_by: String,
    pub model_name: String,
}

/// The builder profile a run uses unless it names one.
pub fn default_profile() -> (s: String)
    ensures
        s@ == "app-builder"@,
{
    string_of(chars_of("app-builder").as_slice())
}

/// Who may reach a published application unless the request says.
pub fn default_visibility() -> (s: String)
    ensures
        s@ == "project"@,
{
    string_of(chars_of("project").as_slice())
}

/// What a run builds unless the request says.
pub fn default_kind() -> (s: String)
    ensures
        s@ == "application"@,
{
    string_of(chars_of("application").as_slice())
}

// ---------------------------------------------------------------------------------------
// Starting a run
// ---------------------------------------------------------------------------------------

pub open spec fn app_class_ok(c: Seq<char>) -> bool {
    c == "static"@ || c == "service"@ || c == "fullstack"@
}

pub open spec fn visibility_ok(v: Seq<char>) -> bool {
    v == "private"@ || v == "project"@ || v == "organization"@ || v == "public"@
}

/// Why a request to start a run is refused before any profile is read, in the order the
/// checks run: the application's name, the prompt (not blank, at most 4000 characters), the
/// class and the visibility.
pub open spec fn app_request_refusal(
    app_name: Seq<char>,
    prompt: Seq<char>,
    app_class: Seq<char>,
    visibility: Seq<char>,
) -> Option<Seq<char>> {
    if !dns1123(app_name) {
        Some("appName '"@ + app_name + "' is not a DNS-1123 label"@)
    } else if trimmed(prompt).len() == 0 {
        Some("prompt must not be empty"@)
    } else if prompt.len() > 4000 {
        Some("prompt is longer than 4000 characters"@)
    } else if !app_class_ok(app_class) {
        Some("appClass '"@ + app_class + "' is not one of static, service, fullstack"@)
    } else if !visibility_ok(visibility) {
        Some("visibility '"@ + visibility + "' is not one of private, project, organization, public"@)
    } else {
        None
    }
}

fn quoted(head: &str, value: &str, tail: &str) -> (e: ApiError)
    ensures
        e matches ApiError::BadRequest(m) && m@ == head@ + value@ + tail@,
{
    let mut m = chars_of(head);
    append_str(&mut m, value);
    append_str(&mut m, tail);
    ApiError::BadRequest(string_of(m.as_slice()))
}

pub fn check_app_request(app_name: &str, prompt: &str, app_class: &str, visibility: &str) -> (r: Result<(), ApiError>)
    ensures
        match app_request_refusal(app_name@, prompt@, app_class@, visibility@) {
            None => r is Ok,
            Some(m) => r matches Err(ApiError::BadRequest(e)) && e@ == m,
        },
{
    if !is_dns1123(app_name) {
        return Err(quoted("appName '", app_name, "' is not a DNS-1123 label"));
    }
    let p = chars_of(prompt);
    let t = trim_chars(p.as_slice());
    if t.len() == 0 {
        return Err(ApiError::BadRequest(string_of(chars_of("prompt must not be empty").as_slice())));
    }
    if p.len() > 4000 {
        return Err(
            ApiError::BadRequest(string_of(chars_of("prompt is longer than 4000 characters").as_slice())),
        );
    }
    if !(str_eq(app_class, "static") || str_eq(app_class, "service") || str_eq(app_class, "fullstack")) {
        return Err(quoted("appClass '", app_class, "' is not one of static, service, fullstack"));
    }
    if !(str_eq(visibility, "private") || str_eq(visibility, "project") || str_eq(
        visibility,
        "organization",
    ) || str_eq(visibility, "public")) {
        return Err(
            quoted(
                "visibility '",
                visibility,
                "' is not one of private, project, organization, public",
            ),
        );
    }
    Ok(())
}

/// Whether a run of this kind runs unattended: a dashboard or an analysis always does.
pub open spec fn runs_unattended(kind: Seq<char>, unattended: bool) -> bool {
    if kind == "dashboard"@ || kind == "analysis"@ {
        true
    } else {
        unattended
    }
}

/// Why a run of this kind is refused: a conversation starts elsewhere, and only the kinds the
/// runner knows are started.
pub open spec fn kind_refusal(kind: Seq<char>, run_kinds: Seq<Seq<char>>) -> Option<Seq<char>> {
    if kind == "conversation"@ {
        Some("a conversation starts at /assistant/conversations"@)
    } else if !run_kinds.contains(kind) {
        Some("kind '"@ + kind + "' is not one of "@ + join(run_kinds, ", "@))
    } else {
        None
    }
}

/// Whether a run of this kind may start, and whether it runs unattended when it may.
pub fn check_run_kind(kind: &str, unattended: bool, run_kinds: &Vec<String>) -> (r: Result<bool, ApiError>)
    ensures
        match kind_refusal(kind@, views(run_kinds@)) {
            None => r == Ok::<bool, ApiError>(runs_unattended(kind@, unattended)),
            Some(m) => r matches Err(ApiError::BadRequest(e)) && e@ == m,
        },
{
    if str_eq(kind, "conversation") {
        return Err(
            ApiError::BadRequest(
                string_of(chars_of("a conversation starts at /assistant/conversations").as_slice()),
            ),
        );
    }
    let mut known = false;
    let mut i: usize = 0;
    while i < run_kinds.len()
        invariant
            i <= run_kinds@.len(),
            known == exists|k: int| 0 <= k < i && run_kinds@[k]@ == kind@,
        decreases run_kinds.len() - i,
    {
        if str_eq(run_kinds[i].as_str(), kind) {
            known = true;
        }
        i = i + 1;
    }
    assert(known == views(run_kinds@).contains(kind@)) by {
        if known {
            let k = choose|k: int| 0 <= k < run_kinds@.len() && run_kinds@[k]@ == kind@;
            assert(views(run_kinds@)[k] == kind@);
        }
        if views(run_kinds@).contains(kind@) {
            let k = choose|k: int| 0 <= k < views(run_kinds@).len() && views(run_kinds@)[k] == kind@;
            assert(run_kinds@[k]@ == kind@);
        }
    }
    if !known {
        let mut parts: Vec<Vec<char>> = Vec::new();
        let mut j: usize = 0;
        while j < run_kinds.len()
            invariant
                j <= run_kinds@.len(),
                parts@.map_values(|p: Vec<char>| p@) == views(run_kinds@).subrange(0, j as int),
            decreases run_kinds.len() - j,
        {
            let ghost before = parts@.map_values(|p: Vec<char>| p@);
            parts.push(chars_of(run_kinds[j].as_str()));
            assert(parts@.map_values(|p: Vec<char>| p@) =~= before.push(views(run_kinds@)[j as int]));
            assert(views(run_kinds@).subrange(0, j + 1) =~= views(run_kinds@).subrange(0, j as int).push(
                views(run_kinds@)[j as int],
            ));
            j = j + 1;
        }
        assert(views(run_kinds@).subrange(0, run_kinds@.len() as int) =~= views(run_kinds@));
        let mut m = chars_of("kind '");
        append_str(&mut m, kind);
        append_str(&mut m, "' is not one of ");
        let joined = join_chars(&parts, chars_of(", ").as_slice());
        crate::text::append_chars(&mut m, joined.as_slice());
        return Err(ApiError::BadRequest(string_of(m.as_slice())));
    }
    Ok(str_eq(kind, "dashboard") || str_eq(kind, "analysis") || unattended)
}

/// The slug of the run's endpoint: refused as not found when there is no such endpoint, and as
/// a bad request when its manifest carries no slug.
pub fn endpoint_slug(endpoint: Option<&Envelope>, project: &str, name: &str) -> (r: Result<String, ApiError>)
    ensures
        match endpoint {
            None => r matches Err(ApiError::NotFound(m)) && m@ == "endpoint '"@ + name@
                + "' not found in project '"@ + project@ + "'"@,
            Some(e) => match get_text(e.spec, "slug"@) {
                Some(s) if s.len() > 0 => r matches Ok(t) && t@ == s,
                _ => r matches Err(ApiError::BadRequest(m)) && m@ == "endpoint '"@ + name@
                    + "' has no slug (EP-02)"@,
            },
        },
{
    let e = match endpoint {
        Some(e) => e,
        None => {
            let mut m = chars_of("endpoint '");
            append_str(&mut m, name);
            append_str(&mut m, "' not found in project '");
            append_str(&mut m, project);
            append_str(&mut m, "'");
            return Err(ApiError::NotFound(string_of(m.as_slice())));
        },
    };
    match e.spec.text_at("slug") {
        Some(s) => {
            if !s.as_str().is_empty() {
                return Ok(s.clone());
            }
        },
        None => {},
    }
    Err(quoted("endpoint '", name, "' has no slug (EP-02)"))
}

/// The branch a run writes on and the directory it writes in.
pub fn run_paths(project: &str, app_name: &str, id: &str) -> (r: (String, String))
    ensures
        r.0@ == "agent/app-"@ + app_name@ + "/"@ + id@,
        r.1@ == "projects/"@ + project@ + "/apps/"@ + app_name@ + "/"@,
{
    let mut b = chars_of("agent/app-");
    append_str(&mut b, app_name);
    append_str(&mut b, "/");
    append_str(&mut b, id);
    let mut p = chars_of("projects/");
    append_str(&mut p, project);
    append_str(&mut p, "/apps/");
    append_str(&mut p, app_name);
    append_str(&mut p, "/");
    (string_of(b.as_slice()), string_of(p.as_slice()))
}

// ---------------------------------------------------------------------------------------
// Around a run
// ---------------------------------------------------------------------------------------

/// The page size of a run listing: 20 unless asked, at most 100, refused when not positive.
pub fn list_limit(limit: Option<i64>) -> (r: Result<i64, ApiError>)
    ensures
        match limit {
            None => r == Ok::<i64, ApiError>(20),
            Some(n) => if n <= 0 {
                r matches Err(ApiError::BadRequest(m)) && m@ == "limit must be positive"@
            } else {
                r == Ok::<i64, ApiError>(if n < 100 {
                    n
                } else {
                    100
                })
            },
        },
{
    match limit {
        None => Ok(20),
        Some(n) => {
            if n <= 0 {
                return Err(ApiError::BadRequest(string_of(chars_of("limit must be positive").as_slice())));
            }
            if n < 100 {
                Ok(n)
            } else {
                Ok(100)
            }
        },
    }
}

/// Whose runs a listing shows: the caller's own unless they may approve in the project and did
/// not ask for their own.
pub fn listed_creator(is_approver: bool, mine: Option<bool>, username: &str) -> (r: Option<String>)
    ensures
        if !is_approver || mine == Some(true) {
            r matches Some(u) && u@ == username@
        } else {
            r is None
        },
{
    if !is_approver || mine == Some(true) {
        Some(string_of(chars_of(username).as_slice()))
    } else {
        None
    }
}

/// What a person says to a run, trimmed: refused when blank or longer than 4000 characters.
pub fn message_text(text: &str) -> (r: Result<String, ApiError>)
    ensures
        if trimmed(text@).len() == 0 {
            r matches Err(ApiError::BadRequest(m)) && m@ == "text must not be empty"@
        } else if trimmed(text@).len() > 4000 {
            r matches Err(ApiError::BadRequest(m)) && m@ == "text is longer than 4000 characters"@
        } else {
            r matches Ok(t) && t@ == trimmed(text@)
        },
{
    let c = chars_of(text);
    let t = trim_chars(c.as_slice());
    if t.len() == 0 {
        return Err(ApiError::BadRequest(string_of(chars_of("text must not be empty").as_slice())));
    }
    if t.len() > 4000 {
        return Err(
            ApiError::BadRequest(string_of(chars_of("text is longer than 4000 characters").as_slice())),
        );
    }
    Ok(string_of(t.as_slice()))
}

/// How long the inbox waits for something new: what the workspace asked, at most 25 seconds,
/// 25 when it did not ask.
pub fn inbox_wait(wait: Option<u64>) -> (w: u64)
    ensures
        w == match wait {
            Some(n) => if n < 25 {
                n
            } else {
                25
            },
            None => 25,
        },
{
    match wait {
        Some(n) => if n < 25 {
            n
        } else {
            25
        },
        None => 25,
    }
}

/// The events a workspace reads from its inbox: answers and messages.
pub fn is_inbox_kind(kind: &str) -> (b: bool)
    ensures
        b == (kind@ == "answer"@ || kind@ == "message"@),
{
    str_eq(kind, "answer") || str_eq(kind, "message")
}

// ---------------------------------------------------------------------------------------
// Navigation
// ---------------------------------------------------------------------------------------

/// A path inside the Portal: one leading `/`, no `//`, at most 512 bytes, no `#`, no `:`, no
/// control character.
pub open spec fn inside_portal(route: Seq<char>) -> bool {
    &&& starts_with(route, "/"@)
    &&& !starts_with(route, "//"@)
    &&& encode_utf8(route).len() <= 512
    &&& !route.contains('#')
    &&& !route.contains(':')
    &&& forall|i: int| 0 <= i < route.len() ==> !is_control(#[trigger] route[i])
}

pub open spec fn prefill_ok(payload: JsonValue) -> bool {
    match get(payload, "prefill"@) {
        None => true,
        Some(JsonValue::Null) => true,
        Some(JsonValue::Object(_)) => true,
        Some(_) => false,
    }
}

fn no_control(r: &[char]) -> (b: bool)
    ensures
        b == forall|i: int| 0 <= i < r@.len() ==> !is_control(#[trigger] r@[i]),
{
    let mut i: usize = 0;
    while i < r.len()
        invariant
            i <= r@.len(),
            forall|k: int| 0 <= k < i ==> !is_control(#[trigger] r@[k]),
        decreases r.len() - i,
    {
        if control(r[i]) {
            return false;
        }
        i = i + 1;
    }
    true
}

/// The route of a `navigate` event, or why it is refused.
///
/// Only a path inside the Portal passes: one leading `/`, no scheme, no `//` (a
/// protocol-relative URL), no `#`, no control character, at most 512 bytes. The prefill, when
/// present, is an object; its values are the form's problem, not this gate's.
pub fn navigate_route(payload: &JsonValue) -> (r: Result<&str, ApiError>)
    ensures
        match get_text(*payload, "route"@) {
            None => r matches Err(ApiError::BadRequest(m)) && m@ == "a navigate event names no route"@,
            Some(route) => if !inside_portal(route) {
                r matches Err(ApiError::BadRequest(m)) && m@
                    == "a navigate route must be a path inside the Portal"@
            } else if !prefill_ok(*payload) {
                r matches Err(ApiError::BadRequest(m)) && m@ == "a navigate prefill must be an object"@
            } else {
                r matches Ok(s) && s@ == route
            },
        },
{
    let route = match payload.text_at("route") {
        Some(r) => r.as_str(),
        None => {
            return Err(ApiError::BadRequest(string_of(chars_of("a navigate event names no route").as_slice())));
        },
    };
    let rc = chars_of(route);
    let inside = has_prefix(rc.as_slice(), chars_of("/").as_slice()) && !has_prefix(
        rc.as_slice(),
        chars_of("//").as_slice(),
    ) && route.as_bytes().len() <= 512 && !has_char(rc.as_slice(), '#') && !has_char(
        rc.as_slice(),
        ':',
    ) && no_control(rc.as_slice());
    if !inside {
        return Err(
            ApiError::BadRequest(
                string_of(chars_of("a navigate route must be a path inside the Portal").as_slice()),
            ),
        );
    }
    match payload.get_member("prefill") {
        None => Ok(route),
        Some(JsonValue::Null) => Ok(route),
        Some(JsonValue::Object(_)) => Ok(route),
        Some(_) => Err(
            ApiError::BadRequest(string_of(chars_of("a navigate prefill must be an object").as_slice())),
        ),
    }
}

/// One page of runs, newest first, each as the caller reads it.
pub struct RunList {
    pub items: Vec<JsonValue>,
}

/// A queued run, and the ticket handed to the workspace when the Portal itself hosts it.
pub struct CreatedRun {
    pub run: JsonValue,
    pub ticket: Option<String>,
}

// ---------------------------------------------------------------------------------------
// The proxy's bearer, and a run's own project
// ---------------------------------------------------------------------------------------

/// Whether two texts are equal, comparing every byte of the longer whatever the answer, so the
/// time it takes says nothing of where they differ.
pub fn constant_time_eq(a: &str, b: &str) -> (r: bool)
    ensures
        r == (a@ == b@),
{
    let x = a.as_bytes();
    let y = b.as_bytes();
    let n = if x.len() > y.len() { x.len() } else { y.len() };
    let mut same = x.len() == y.len();
    let mut i: usize = 0;
    while i < n
        invariant
            i <= n,
            n == if x@.len() > y@.len() { x@.len() } else { y@.len() },
            same == (x@.len() == y@.len() && forall|k: int| 0 <= k < i ==> x@[k] == y@[k]),
        decreases n - i,
    {
        let p = if i < x.len() { x[i] } else { 0u8 };
        let q = if i < y.len() { y[i] } else { 0u8 };
        if p != q {
            same = false;
        }
        i = i + 1;
    }
    proof {
        if same {
            assert(x@ =~= y@);
        }
        vstd::utf8::encode_utf8_decode_utf8(a@);
        vstd::utf8::encode_utf8_decode_utf8(b@);
    }
    same
}

/// What the proxy's `Authorization` header presents: the bearer after `Bearer `.
pub open spec fn presented_bearer(authorization: Option<Seq<char>>) -> Option<Seq<char>> {
    match authorization {
        Some(h) => if starts_with(h, "Bearer "@) {
            Some(h.subrange(7, h.len() as int))
        } else {
            None
        },
        None => None,
    }
}

/// The proxy presents the agent runner's own token, or nothing on the internal listener is
/// answered. A Portal without an agent runner has no token to match and refuses everything.
pub fn authenticate_proxy(proxy_token: Option<&str>, authorization: Option<&str>) -> (r: Result<(), ApiError>)
    ensures
        r is Ok <==> (proxy_token is Some && presented_bearer(
            match authorization {
                Some(h) => Some(h@),
                None => None,
            },
        ) == Some(proxy_token->0@)),
        r is Err ==> r matches Err(ApiError::Unauthorized),
{
    let token = match proxy_token {
        Some(t) => t,
        None => return Err(ApiError::Unauthorized),
    };
    let header = match authorization {
        Some(h) => chars_of(h),
        None => return Err(ApiError::Unauthorized),
    };
    let prefix = chars_of("Bearer ");
    proof {
        reveal_strlit("Bearer ");
    }
    if !has_prefix(header.as_slice(), prefix.as_slice()) {
        return Err(ApiError::Unauthorized);
    }
    let presented = string_of(crate::text::slice_of(header.as_slice(), 7, header.len()).as_slice());
    if constant_time_eq(token, presented.as_str()) {
        Ok(())
    } else {
        Err(ApiError::Unauthorized)
    }
}

/// A run is answered only in its own project: one of another project is a 404, so the caller
/// learns nothing of the id.
pub fn run_in_project(run_project: Option<&str>, project: &str, id: &str) -> (r: Result<(), ApiError>)
    ensures
        match run_project {
            Some(p) => p@ == project@,
            None => false,
        } ==> r is Ok,
        !match run_project {
            Some(p) => p@ == project@,
            None => false,
        } ==> (r matches Err(ApiError::NotFound(m)) && m@ == "run '"@ + id@ + "' not found in project '"@ + project@
            + "'"@),
{
    let ours = match run_project {
        Some(p) => str_eq(p, project),
        None => false,
    };
    if ours {
        Ok(())
    } else {
        let mut m = chars_of("run '");
        append_str(&mut m, id);
        append_str(&mut m, "' not found in project '");
        append_str(&mut m, project);
        append_str(&mut m, "'");
        Err(ApiError::NotFound(string_of(m.as_slice())))
    }
}

/// A run's files that are code: those under `src/` or `functions/` whose content is text, in
/// the order the files list them.
pub open spec fn code_files_of(files: Seq<(String, JsonValue)>) -> Seq<(Seq<char>, Seq<char>)>
    decreases files.len(),
{
    if files.len() == 0 {
        Seq::empty()
    } else {
        let before = code_files_of(files.drop_last());
        let (path, content) = files.last();
        if (starts_with(path@, "src/"@) || starts_with(path@, "functions/"@)) && content is Str {
            before.push((path@, content->Str_0@))
        } else {
            before
        }
    }
}

/// The code of a run, which is what its preview is built from when there is any.
pub fn code_files(files: &JsonValue) -> (out: Vec<(String, String)>)
    ensures
        out@.map_values(|p: (String, String)| (p.0@, p.1@)) == match *files {
            JsonValue::Object(m) => code_files_of(m@),
            _ => Seq::empty(),
        },
{
    let mut out: Vec<(String, String)> = Vec::new();
    match files {
        JsonValue::Object(m) => {
            let src = chars_of("src/");
            let functions = chars_of("functions/");
            let mut i: usize = 0;
            while i < m.len()
                invariant
                    i <= m@.len(),
                    src@ == "src/"@,
                    functions@ == "functions/"@,
                    out@.map_values(|p: (String, String)| (p.0@, p.1@)) == code_files_of(m@.take(i as int)),
                decreases m.len() - i,
            {
                assert(m@.take(i + 1).drop_last() =~= m@.take(i as int));
                assert(m@.take(i + 1).last() == m@[i as int]);
                let p = chars_of(m[i].0.as_str());
                let code = has_prefix(p.as_slice(), src.as_slice()) || has_prefix(p.as_slice(), functions.as_slice());
                if code {
                    if let JsonValue::Str(t) = &m[i].1 {
                        let ghost before = out@.map_values(|p: (String, String)| (p.0@, p.1@));
                        out.push((m[i].0.clone(), t.clone()));
                        assert(out@.map_values(|p: (String, String)| (p.0@, p.1@)) =~= before.push((m@[i as int].0@, t@)));
                    }
                }
                i = i + 1;
            }
            assert(m@.take(m@.len() as int) =~= m@);
        },
        _ => {
            assert(out@.map_values(|p: (String, String)| (p.0@, p.1@)) =~= Seq::<(Seq<char>, Seq<char>)>::empty());
        },
    }
    out
}

// ---------------------------------------------------------------------------------------
// The App a published run leaves behind
// ---------------------------------------------------------------------------------------

/// The toolchains CI pins for a generated application: Node alone for a `static` one, Rust and
/// Node for the other classes.
pub open spec fn toolchains(build: JsonValue, app_class: Seq<char>) -> bool {
    build matches JsonValue::Object(b) && if app_class == "static"@ {
        b@.len() == 1 && crate::projects::text_member(b@[0], "node"@, "22"@)
    } else {
        b@.len() == 2 && crate::projects::text_member(b@[0], "rust"@, "1.90"@)
            && crate::projects::text_member(b@[1], "node"@, "22"@)
    }
}

/// The run's annotations: the run it came out of and the digest of its prompt.
pub open spec fn run_annotations(v: JsonValue, id: Seq<char>, digest: Seq<char>) -> bool {
    v matches JsonValue::Object(a) && a@.len() == 2 && crate::projects::text_member(
        a@[0],
        "joinedcontext.com/agent-run"@,
        id,
    ) && crate::projects::text_member(a@[1], "joinedcontext.com/prompt-digest"@, digest)
}

/// The facts of a run an App manifest is built from.
pub struct PublishedRun {
    pub id: String,
    pub project: String,
    pub app_name: String,
    pub app_class: String,
    pub visibility: String,
    pub prompt_digest: String,
}

/// The `App` manifest a published run leaves behind, built from the run rather than from
/// anything the workspace wrote: `dataNeeds` is what was checked against the endpoint before
/// the run started, so the manifest cannot widen what the application may reach.
pub open spec fn app_manifest_of(v: JsonValue, run: PublishedRun, data_needs: JsonValue) -> bool {
    v matches JsonValue::Object(m) && {
        &&& m@.len() == 4
        &&& crate::projects::text_member(m@[0], "apiVersion"@, "joinedcontext.com/v1alpha1"@)
        &&& crate::projects::text_member(m@[1], "kind"@, "App"@)
        &&& m@[2].0@ == "metadata"@
        &&& m@[2].1 matches JsonValue::Object(md) && md@.len() == 3 && crate::projects::text_member(
            md@[0],
            "name"@,
            run.app_name@,
        ) && crate::projects::text_member(md@[1], "namespace"@, run.project@) && md@[2].0@ == "annotations"@
            && run_annotations(md@[2].1, run.id@, run.prompt_digest@)
        &&& m@[3].0@ == "spec"@
        &&& m@[3].1 matches JsonValue::Object(sp) && sp@.len() == 6 && crate::projects::text_member(
            sp@[0],
            "kind"@,
            run.app_class@,
        ) && crate::projects::single_member(sp@[1], "source"@, "path"@, "./src"@) && sp@[2].0@ == "build"@
            && toolchains(sp@[2].1, run.app_class@) && crate::projects::text_member(
            sp@[3],
            "visibility"@,
            run.visibility@,
        ) && crate::projects::text_member(sp@[4], "lifecycle"@, "published"@) && sp@[5].0@ == "dataNeeds"@
            && sp@[5].1 == data_needs
    }
}

fn text_of(s: &str) -> (v: JsonValue)
    ensures
        crate::projects::text_is(v, s@),
{
    JsonValue::Str(string_of(chars_of(s).as_slice()))
}

fn name_of(s: &str) -> (k: String)
    ensures
        k@ == s@,
{
    string_of(chars_of(s).as_slice())
}

pub fn app_manifest(run: &PublishedRun, data_needs: JsonValue) -> (v: JsonValue)
    ensures
        app_manifest_of(v, *run, data_needs),
{
    let mut annotations: Vec<(String, JsonValue)> = Vec::new();
    annotations.push((name_of("joinedcontext.com/agent-run"), text_of(run.id.as_str())));
    annotations.push((name_of("joinedcontext.com/prompt-digest"), text_of(run.prompt_digest.as_str())));
    let mut metadata: Vec<(String, JsonValue)> = Vec::new();
    metadata.push((name_of("name"), text_of(run.app_name.as_str())));
    metadata.push((name_of("namespace"), text_of(run.project.as_str())));
    metadata.push((name_of("annotations"), JsonValue::Object(annotations)));
    let mut build: Vec<(String, JsonValue)> = Vec::new();
    if !str_eq(run.app_class.as_str(), "static") {
        build.push((name_of("rust"), text_of("1.90")));
    }
    build.push((name_of("node"), text_of("22")));
    let mut source: Vec<(String, JsonValue)> = Vec::new();
    source.push((name_of("path"), text_of("./src")));
    let mut spec: Vec<(String, JsonValue)> = Vec::new();
    spec.push((name_of("kind"), text_of(run.app_class.as_str())));
    spec.push((name_of("source"), JsonValue::Object(source)));
    spec.push((name_of("build"), JsonValue::Object(build)));
    spec.push((name_of("visibility"), text_of(run.visibility.as_str())));
    spec.push((name_of("lifecycle"), text_of("published")));
    spec.push((name_of("dataNeeds"), data_needs));
    let mut m: Vec<(String, JsonValue)> = Vec::new();
    m.push((name_of("apiVersion"), text_of("joinedcontext.com/v1alpha1")));
    m.push((name_of("kind"), text_of("App")));
    m.push((name_of("metadata"), JsonValue::Object(metadata)));
    m.push((name_of("spec"), JsonValue::Object(spec)));
    JsonValue::Object(m)
}

} // verus!
