//! GitHub commit statuses: where they are posted and what they say over a
//! pipeline's life (pending, then per stage, then the final result).
use vstd::prelude::*;

use crate::text::{decimal_spec, push_decimal, push_str, to_string};

verus! {

/// The commit status endpoint: `https://api.github.com/repos/<repo>/statuses/<sha>`.
pub fn commit_status_uri(repo: &str, sha: &str) -> (res: String)
    ensures
        res@ == "https://api.github.com/repos/"@ + repo@ + "/statuses/"@ + sha@,
{
    let mut s = String::new();
    push_str(&mut s, "https://api.github.com/repos/");
    push_str(&mut s, repo);
    push_str(&mut s, "/statuses/");
    push_str(&mut s, sha);
    proof {
        assert(s@ =~= "https://api.github.com/repos/"@ + repo@ + "/statuses/"@ + sha@);
    }
    s
}

/// A status to post: its state (`pending`, `success`, `failure`) and description.
#[derive(Clone, Debug)]
pub struct CommitStatus {
    pub state: String,
    pub description: String,
}

/// The full GitOps loop: commit statuses over a pipeline's lifecycle.
/// Post `start()` when a run begins, `stage_done()` per stage, `finish()` at the end.
pub struct GitOpsLoop<'a> {
    pub token: &'a str,
    pub repo: &'a str,
    pub sha: &'a str,
    pub dashboard_url: String,
}

/// `success` or `failure`.
pub open spec fn result_state(passed: bool) -> Seq<char> {
    if passed {
        "success"@
    } else {
        "failure"@
    }
}

impl<'a> GitOpsLoop<'a> {
    /// A loop whose statuses link to the dashboard at `https://localhost:<port>/dashboard`.
    pub fn new(token: &'a str, repo: &'a str, sha: &'a str, port: u16) -> (res: Self)
        ensures
            res.token == token,
            res.repo == repo,
            res.sha == sha,
            res.dashboard_url@ == "https://localhost:"@ + decimal_spec(port as nat)
                + "/dashboard"@,
    {
        let mut url = String::new();
        push_str(&mut url, "https://localhost:");
        push_decimal(&mut url, port as u64);
        push_str(&mut url, "/dashboard");
        proof {
            assert(url@ =~= "https://localhost:"@ + decimal_spec(port as nat) + "/dashboard"@);
        }
        GitOpsLoop { token, repo, sha, dashboard_url: url }
    }

    /// The status posted when the pipeline starts.
    pub fn start(&self) -> (res: CommitStatus)
        ensures
            res.state@ == "pending"@,
            res.description@ == "RustPipe: pipeline started"@,
    {
        CommitStatus {
            state: to_string("pending"),
            description: to_string("RustPipe: pipeline started"),
        }
    }

    /// The status posted when a stage is done.
    pub fn stage_done(&self, stage: &str, passed: bool) -> (res: CommitStatus)
        ensures
            res.state@ == result_state(passed),
            res.description@ == "RustPipe: stage '"@ + stage@ + "' "@ + (if passed {
                "passed"@
            } else {
                "failed"@
            }),
    {
        let state = if passed {
            to_string("success")
        } else {
            to_string("failure")
        };
        let mut d = String::new();
        push_str(&mut d, "RustPipe: stage '");
        push_str(&mut d, stage);
        push_str(&mut d, "' ");
        push_str(
            &mut d,
            if passed {
                "passed"
            } else {
                "failed"
            },
        );
        proof {
            assert(d@ =~= "RustPipe: stage '"@ + stage@ + "' "@ + (if passed {
                "passed"@
            } else {
                "failed"@
            }));
        }
        CommitStatus { state, description: d }
    }

    /// The final status, linking to the dashboard.
    pub fn finish(&self, passed: bool) -> (res: CommitStatus)
        ensures
            res.state@ == result_state(passed),
            res.description@ == "RustPipe: pipeline "@ + result_state(passed) + " — "@
                + self.dashboard_url@,
    {
        let state = if passed {
            to_string("success")
        } else {
            to_string("failure")
        };
        let mut d = String::new();
        push_str(&mut d, "RustPipe: pipeline ");
        push_str(&mut d, state.as_str());
        push_str(&mut d, " — ");
        push_str(&mut d, self.dashboard_url.as_str());
        proof {
            assert(d@ =~= "RustPipe: pipeline "@ + result_state(passed) + " — "@
                + self.dashboard_url@);
        }
        CommitStatus { state, description: d }
    }
}

} // verus!
