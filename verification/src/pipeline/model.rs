//! The pipeline model: a pipeline has named stages, a stage has steps.
use vstd::prelude::*;

use crate::strmap::StrMap;

verus! {

/// How often a step is tried.
#[derive(Clone, Debug)]
pub struct RetryConfig {
    pub attempts: u32,
    pub backoff: Option<String>,
}

/// One shell command of a stage.
#[derive(Clone, Debug)]
pub struct Step {
    pub name: String,
    pub run: String,
    pub artifact: Option<String>,
    pub retry: Option<RetryConfig>,
}

/// A stage: steps run in one image, after the stages it needs.
#[derive(Clone, Debug)]
pub struct Stage {
    pub runs_on: String,
    pub steps: Vec<Step>,
    pub needs: Option<Vec<String>>,
    pub when: Option<String>,
    pub timeout_secs: Option<u64>,
    /// matrix: { rust: [stable, beta], os: [linux, macos] }
    pub matrix: Option<StrMap<Vec<String>>>,
    pub fail_fast: bool,
}

/// Which pushes start the pipeline.
#[derive(Clone, Debug)]
pub struct Trigger {
    pub branches: Option<Vec<String>>,
    pub events: Option<Vec<String>>,
}

/// Where results are announced.
#[derive(Clone, Debug)]
pub struct NotifyConfig {
    pub slack: Option<String>,
    pub discord: Option<String>,
    pub webhook: Option<String>,
}

/// A pipeline: a name and stages keyed by their names.
#[derive(Clone, Debug)]
pub struct Pipeline {
    pub name: String,
    pub trigger: Option<Trigger>,
    pub stages: StrMap<Stage>,
    pub secrets: Option<Vec<String>>,
    pub notify: Option<NotifyConfig>,
}

/// The state of a stage.
#[derive(Clone, Copy, Debug, PartialEq, Eq, Structural)]
pub enum StageStatus {
    Pending,
    Running,
    Passed,
    Failed,
    Skipped,
}

/// The upper-case word that names a status.
pub open spec fn status_label(s: StageStatus) -> Seq<char> {
    match s {
        StageStatus::Pending => "PENDING"@,
        StageStatus::Running => "RUNNING"@,
        StageStatus::Passed => "PASSED"@,
        StageStatus::Failed => "FAILED"@,
        StageStatus::Skipped => "SKIPPED"@,
    }
}

impl StageStatus {
    /// The upper-case word that names the status, as the status is printed.
    pub fn label(&self) -> (res: &'static str)
        ensures
            res@ == status_label(*self),
    {
        match self {
            StageStatus::Pending => "PENDING",
            StageStatus::Running => "RUNNING",
            StageStatus::Passed => "PASSED",
            StageStatus::Failed => "FAILED",
            StageStatus::Skipped => "SKIPPED",
        }
    }
}

} // verus!
