//! What a `SyncSource` reports and what an operator can do to it: the status the project
//! page shows, which source a request names, who may trigger a run from outside, and the
//! merge request that detaches a source.

use vstd::prelude::*;
use crate::error::ApiError;
use crate::json::JsonValue;
use crate::projects::{dns1123, is_dns1123};
use crate::text::{append_str, chars_of, string_of};
use crate::webhook::{signature_valid, verify_signature};

verus! {

/// What the project page shows for one source.
#[derive(Debug)]
pub struct SyncSourceStatus {
    pub project: String,
    pub name: String,
    /// `Synced`, `OutOfSync`, `PendingApproval`, `Error` or `Paused`.
    pub phase: String,
    /// The source revision the repository carries.
    pub observed_revision: Option<String>,
    /// When the last run happened, in seconds since the epoch.
    pub last_run_at: Option<u64>,
    /// The merge request a run opened and nobody has answered yet.
    pub merge_request: Option<String>,
    /// Why the last run did not finish, when it did not.
    pub last_error: Option<String>,
    pub paused: bool,
    /// Whether a restart keeps this.
    pub durable: bool,
}

/// What the sync loop remembers of one source.
#[derive(Debug)]
pub struct Stored {
    pub phase: String,
    pub observed_revision: Option<String>,
    pub last_run_at: Option<u64>,
    pub merge_request: Option<String>,
    pub last_error: Option<String>,
    pub paused: bool,
}

impl SyncSourceStatus {
    /// The status of a source from what the loop remembers of it.
    pub fn of(project: &str, name: &str, stored: Stored, durable: bool) -> (s: SyncSourceStatus)
        ensures
            s.project@ == project@,
            s.name@ == name@,
            s.phase == stored.phase,
            s.observed_revision == stored.observed_revision,
            s.last_run_at == stored.last_run_at,
            s.merge_request == stored.merge_request,
            s.last_error == stored.last_error,
            s.paused == stored.paused,
            s.durable == durable,
    {
        SyncSourceStatus {
            project: string_of(chars_of(project).as_slice()),
            name: string_of(chars_of(name).as_slice()),
            phase: stored.phase,
            observed_revision: stored.observed_revision,
            last_run_at: stored.last_run_at,
            merge_request: stored.merge_request,
            last_error: stored.last_error,
            paused: stored.paused,
            durable,
        }
    }
}

/// What one run did, and where the source stands afterwards.
#[derive(Debug)]
pub struct SyncRunReport {
    /// The `kind: Change` envelope of every merge request the run opened.
    pub proposed: Vec<JsonValue>,
    /// Whether the run changed anything at all.
    pub unchanged: usize,
    /// What the run could not do, in sentences a person can act on.
    pub flags: Vec<String>,
    pub status: SyncSourceStatus,
}

/// Whether syncing is on or off.
#[derive(Debug, Clone, Copy)]
pub struct PauseRequest {
    /// `true` switches the loop off, `false` switches it back on.
    pub paused: bool,
}

pub open spec fn no_such_source(project: Seq<char>, name: Seq<char>) -> Seq<char> {
    "sync source '"@ + name + "' not found in project '"@ + project + "'"@
}

fn not_found(project: &str, name: &str) -> (e: ApiError)
    ensures
        e matches ApiError::NotFound(m) && m@ == no_such_source(project@, name@),
{
    let mut m = chars_of("sync source '");
    append_str(&mut m, name);
    append_str(&mut m, "' not found in project '");
    append_str(&mut m, project);
    append_str(&mut m, "'");
    ApiError::NotFound(string_of(m.as_slice()))
}

/// The project and source a request names, refused when either is no DNS-1123 label or the
/// repository holds no such source.
pub fn named(project: &str, name: &str, held: bool) -> (r: Result<(String, String), ApiError>)
    ensures
        if dns1123(project@) && dns1123(name@) && held {
            r matches Ok((p, n)) && p@ == project@ && n@ == name@
        } else {
            r matches Err(ApiError::NotFound(m)) && m@ == no_such_source(project@, name@)
        },
{
    if !is_dns1123(project) || !is_dns1123(name) || !held {
        return Err(not_found(project, name));
    }
    Ok((string_of(chars_of(project).as_slice()), string_of(chars_of(name).as_slice())))
}

/// Who may trigger a run from outside: the secret must be configured (503 otherwise), and the
/// body signed with it (401 otherwise, a missing signature counting as an empty one).
pub fn authenticate_trigger(secret: Option<&str>, signature: Option<&str>, body: &[u8]) -> (r: Result<(), ApiError>)
    ensures
        match secret {
            None => r matches Err(ApiError::Unavailable(m)) && m@ == "webhook secret is not configured"@,
            Some(s) => if signature_valid(
                s@,
                body@,
                match signature {
                    Some(p) => p@,
                    None => Seq::empty(),
                },
            ) {
                r is Ok
            } else {
                r matches Err(ApiError::Unauthorized)
            },
        },
{
    let s = match secret {
        Some(s) => s,
        None => {
            return Err(
                ApiError::Unavailable(string_of(chars_of("webhook secret is not configured").as_slice())),
            )
        },
    };
    let presented = match signature {
        Some(p) => string_of(chars_of(p).as_slice()),
        None => string_of(Vec::<char>::new().as_slice()),
    };
    if !verify_signature(s, body, presented.as_str()) {
        return Err(ApiError::Unauthorized);
    }
    Ok(())
}

/// The branch, title and body of the merge request that detaches a source, whose manifest
/// lives at `path`.
pub open spec fn detach_texts(project: Seq<char>, name: Seq<char>, path: Seq<char>) -> (Seq<char>, Seq<char>, Seq<char>) {
    (
        "detach/"@ + project + "-"@ + name,
        "detach sync source "@ + project + "/"@ + name,
        "Removes `"@ + path + "`, so `"@ + project + "/"@ + name
            + "` stops syncing.\n\nThe resources it brought into the project stay where they are; detaching a source is not deleting what it published. Syncing is already paused, and stays paused if this is closed rather than merged.\n"@,
    )
}

pub fn detach_proposal(project: &str, name: &str, path: &str) -> (r: (String, String, String))
    ensures
        (r.0@, r.1@, r.2@) == detach_texts(project@, name@, path@),
{
    let mut branch = chars_of("detach/");
    append_str(&mut branch, project);
    append_str(&mut branch, "-");
    append_str(&mut branch, name);
    let mut title = chars_of("detach sync source ");
    append_str(&mut title, project);
    append_str(&mut title, "/");
    append_str(&mut title, name);
    let mut body = chars_of("Removes `");
    append_str(&mut body, path);
    append_str(&mut body, "`, so `");
    append_str(&mut body, project);
    append_str(&mut body, "/");
    append_str(&mut body, name);
    append_str(
        &mut body,
        "` stops syncing.\n\nThe resources it brought into the project stay where they are; detaching a source is not deleting what it published. Syncing is already paused, and stays paused if this is closed rather than merged.\n",
    );
    (string_of(branch.as_slice()), string_of(title.as_slice()), string_of(body.as_slice()))
}

} // verus!
