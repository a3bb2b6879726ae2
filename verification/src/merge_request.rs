//! Merge requests as a submission reports them.
use vstd::prelude::*;

verus! {

/// What became of a merge request in a submission.
#[derive(Debug, Clone, Copy, PartialEq, Eq, Structural)]
pub enum MRUpdateType {
    Created,
    Updated,
    Unchanged,
}

/// A merge request that a submission created, updated or left as it was.
#[derive(Debug, Clone)]
pub struct MRUpdate {
    /// The ID of the merge request within its project.
    pub iid: String,
    pub title: String,
    /// The address of the merge request.
    pub url: String,
    /// The address at which the merge request is edited.
    pub edit_url: String,
    /// The bookmark of the merge request.
    pub bookmark: String,
    pub update_type: MRUpdateType,
    pub warnings: Option<Vec<String>>,
}

} // verus!
