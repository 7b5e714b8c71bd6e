//! Run history: typed run ids and the rows read back for the CLI.
use std::marker::PhantomData;
use vstd::prelude::*;

verus! {

// --- Phantom type markers ---
/// A run that has started and not finished.
pub struct Pending;

/// A run that has finished.
pub struct Completed;

/// Typed run ID: distinguishes pending and completed runs at compile time.
pub struct RunId<State> {
    pub value: i64,
    _state: PhantomData<State>,
}

impl<State> RunId<State> {
    /// The database id of the run.
    pub closed spec fn id(self) -> i64 {
        self.value
    }

    /// The database id of the run.
    pub fn value(&self) -> (r: i64)
        ensures
            r == self.id(),
    {
        self.value
    }
}

impl RunId<Pending> {
    /// The id of a run that has just been recorded.
    pub fn new(id: i64) -> (res: Self)
        ensures
            res.id() == id,
    {
        RunId { value: id, _state: PhantomData }
    }

    /// Pending to Completed: the same run, finished.
    pub fn complete(self) -> (res: RunId<Completed>)
        ensures
            res.id() == self.id(),
    {
        RunId { value: self.value, _state: PhantomData }
    }
}

/// A run as listed by `history`.
pub struct RunRow {
    pub id: i64,
    pub pipeline: String,
    pub branch: String,
    pub commit_sha: String,
    pub status: String,
    pub started_at: String,
    pub finished_at: Option<String>,
}

/// A logged step as printed by `logs`.
pub struct StepLogRow {
    pub stage: String,
    pub step: String,
    pub output: String,
    pub exit_code: i64,
}

} // verus!
