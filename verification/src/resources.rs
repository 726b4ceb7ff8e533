//! The generic listing of one kind of a project, and the liveness and readiness answers.

use vstd::prelude::*;
use crate::error::ApiError;
use crate::resource::{by_plural, kind_by_plural, Envelope, KindInfo};
use crate::text::{append_str, chars_of, string_of};

verus! {

/// A page of manifests of one kind.
pub struct ResourceList {
    pub api_version: String,
    pub kind: String,
    pub metadata: ListMeta,
    pub items: Vec<Envelope>,
}

/// Where the next page starts, and how many items are left after this one.
pub struct ListMeta {
    pub continue_token: Option<String>,
    pub remaining_item_count: Option<usize>,
}

/// The query of a listing.
pub struct ListQuery {
    pub label_selector: Option<String>,
    pub field_selector: Option<String>,
    pub limit: Option<usize>,
    pub continue_token: Option<String>,
    pub revision: Option<String>,
}

/// The largest page a listing serves.
pub const MAX_PAGE: usize = 500;

/// The page size a listing asks the store for: none when the query names none, the query's own
/// when it is at most the largest page, the largest page above that. A limit of zero is refused.
pub open spec fn page_limit(limit: Option<usize>) -> Option<Option<usize>> {
    match limit {
        None => Some(None),
        Some(n) => if n == 0 {
            None
        } else if n > MAX_PAGE {
            Some(Some(MAX_PAGE))
        } else {
            Some(Some(n))
        },
    }
}

/// The page size of a listing, or the refusal of a limit of zero.
pub fn list_limit(limit: Option<usize>) -> (r: Result<Option<usize>, ApiError>)
    ensures
        match page_limit(limit) {
            Some(l) => r == Ok::<Option<usize>, ApiError>(l),
            None => r matches Err(ApiError::BadRequest(m)) && m@ == "limit must be greater than 0"@,
        },
{
    match limit {
        None => Ok(None),
        Some(n) => {
            if n == 0 {
                let m = chars_of("limit must be greater than 0");
                Err(ApiError::BadRequest(string_of(m.as_slice())))
            } else if n > MAX_PAGE {
                Ok(Some(MAX_PAGE))
            } else {
                Ok(Some(n))
            }
        },
    }
}

/// The words of the refusal of an unknown plural.
pub open spec fn unknown_plural_message(plural: Seq<char>, project: Seq<char>) -> Seq<char> {
    "plural '"@ + plural + "' not found in project '"@ + project + "'"@
}

/// What a listing asks the store for: the kind its plural names and the page size. Refused, in
/// this order: a historical revision (501, served from Git), a plural the catalogue does not
/// list (404), a limit of zero (400). Parsing the selectors is the caller's.
pub fn list_request(
    project: &str,
    plural: &str,
    catalogue: &Vec<KindInfo>,
    query: &ListQuery,
) -> (r: Result<(String, Option<usize>), ApiError>)
    ensures
        query.revision is Some ==> (r matches Err(ApiError::NotImplemented(m))
            && m@ == "historical revisions are served from Git"@),
        query.revision is None && kind_by_plural(catalogue@, plural@) is None ==> (r matches Err(
            ApiError::NotFound(m),
        ) && m@ == unknown_plural_message(plural@, project@)),
        query.revision is None && kind_by_plural(catalogue@, plural@) is Some ==> match page_limit(
            query.limit,
        ) {
            Some(l) => r matches Ok((k, lim)) && Some(k@) == kind_by_plural(catalogue@, plural@)
                && lim == l,
            None => r matches Err(ApiError::BadRequest(m)) && m@ == "limit must be greater than 0"@,
        },
{
    if query.revision.is_some() {
        let m = chars_of("historical revisions are served from Git");
        return Err(ApiError::NotImplemented(string_of(m.as_slice())));
    }
    let p = chars_of(plural);
    let kind = match by_plural(catalogue, p.as_slice()) {
        Some(k) => k,
        None => {
            let mut m: Vec<char> = chars_of("plural '");
            append_str(&mut m, plural);
            append_str(&mut m, "' not found in project '");
            append_str(&mut m, project);
            append_str(&mut m, "'");
            return Err(ApiError::NotFound(string_of(m.as_slice())));
        },
    };
    match list_limit(query.limit) {
        Ok(l) => Ok((kind, l)),
        Err(e) => Err(e),
    }
}

/// The paging part of a listing: the remaining count is told only when there is a next page.
pub fn list_meta(continue_token: Option<String>, remaining: usize) -> (m: ListMeta)
    ensures
        m.continue_token == continue_token,
        m.remaining_item_count == if continue_token is Some {
            Some(remaining)
        } else {
            None::<usize>
        },
{
    let remaining_item_count = if continue_token.is_some() {
        Some(remaining)
    } else {
        None
    };
    ListMeta { continue_token, remaining_item_count }
}

/// The listing's answer: a `List` of the resource API version.
pub fn resource_list(metadata: ListMeta, items: Vec<Envelope>) -> (r: ResourceList)
    ensures
        r.api_version@ == "joinedcontext.com/v1alpha1"@,
        r.kind@ == "List"@,
        r.metadata == metadata,
        r.items == items,
{
    let v = chars_of("joinedcontext.com/v1alpha1");
    let k = chars_of("List");
    ResourceList {
        api_version: string_of(v.as_slice()),
        kind: string_of(k.as_slice()),
        metadata,
        items,
    }
}

/// The liveness answer.
pub struct Health {
    pub name: String,
    pub version: String,
    pub status: &'static str,
}

/// Whether this replica serves the repository yet: `ready` or `loading`, nothing more.
pub struct Readiness {
    pub status: &'static str,
}

/// The service is up: its name, its version and `ok`.
pub fn health(name: &str, version: &str) -> (h: Health)
    ensures
        h.name@ == name@,
        h.version@ == version@,
        h.status@ == "ok"@,
{
    let n = chars_of(name);
    let v = chars_of(version);
    Health { name: string_of(n.as_slice()), version: string_of(v.as_slice()), status: "ok" }
}

/// Readiness and its status code. `syncer_ready` is whether the repository syncer has loaded
/// the mirror, `None` without a forge: with no repository there is nothing to wait for.
pub fn readiness(syncer_ready: Option<bool>) -> (r: (u16, Readiness))
    ensures
        (syncer_ready != Some(false)) ==> r.0 == 200 && r.1.status@ == "ready"@,
        (syncer_ready == Some(false)) ==> r.0 == 503 && r.1.status@ == "loading"@,
{
    match syncer_ready {
        Some(false) => (503, Readiness { status: "loading" }),
        _ => (200, Readiness { status: "ready" }),
    }
}

} // verus!
