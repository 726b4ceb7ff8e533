//! The answers of the shared-draft routes that are the Portal's own rather than the
//! operation's.

use vstd::prelude::*;
use crate::json::JsonValue;

verus! {

/// The drafts of a project, each as the caller reads it.
pub struct DraftList {
    pub items: Vec<JsonValue>,
}

/// Whether dropping a draft removed one.
pub struct DropDraftResponse {
    pub dropped: bool,
}

} // verus!
