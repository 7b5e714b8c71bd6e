//! The run records listed by `GET /api/v1/runs`.
use vstd::prelude::*;

verus! {

/// A pipeline run started by a webhook.
#[derive(Clone, Debug)]
pub struct RunRecord {
    pub id: u64,
    pub pipeline: String,
    pub branch: String,
    pub commit: String,
    pub status: String,
}

} // verus!
