//! Notifications: the messages sent to Slack, Discord and generic webhooks
//! when a run ends. The sending itself, with its retries, is done by the caller.
use vstd::prelude::*;

use crate::text::{
    byte_prefix, byte_prefix_exec, decimal_spec, prefix_on_boundary, push_decimal, push_str,
    str_equal, to_uppercase, upper,
};

verus! {

/// The summary of a run that notifications report.
pub struct RunSummary<'a> {
    pub pipeline: &'a str,
    pub branch: &'a str,
    pub commit: &'a str,
    /// "passed" | "failed"
    pub status: &'a str,
    pub duration_secs: u64,
    pub failed_stage: Option<&'a str>,
}

/// The commit as shown: its first 8 bytes, or all of it if shorter.
pub open spec fn short_commit_spec(commit: Seq<char>) -> Seq<char> {
    byte_prefix(commit, 8)
}

/// The emoji for a status: a check mark for `passed`, a cross otherwise.
pub open spec fn status_emoji(status: Seq<char>) -> Seq<char> {
    if status == "passed"@ {
        "✅"@
    } else {
        "❌"@
    }
}

/// The reason appended for a failed stage.
pub open spec fn failed_suffix(failed: Option<&str>) -> Seq<char> {
    match failed {
        Some(s) => " — failed at `"@ + s@ + "`"@,
        None => Seq::empty(),
    }
}

/// The Slack message: `<emoji> *<pipeline>* — `<status>` on `<branch>` @ `<commit>` (<n>s)`,
/// then the failed stage if there is one.
pub open spec fn slack_text_spec(s: RunSummary) -> Seq<char> {
    status_emoji(s.status@) + " *"@ + s.pipeline@ + "* — `"@ + s.status@ + "` on `"@ + s.branch@
        + "` @ `"@ + short_commit_spec(s.commit@) + "` ("@ + decimal_spec(s.duration_secs as nat)
        + "s)"@ + failed_suffix(s.failed_stage)
}

/// The Slack message text of a run. Cutting the commit inside a character
/// panics, which `requires` rules out.
pub fn slack_text(summary: &RunSummary) -> (res: String)
    requires
        prefix_on_boundary(summary.commit@, 8),
    ensures
        res@ == slack_text_spec(*summary),
{
    let mut t = String::new();
    if str_equal(summary.status, "passed") {
        push_str(&mut t, "✅");
    } else {
        push_str(&mut t, "❌");
    }
    push_str(&mut t, " *");
    push_str(&mut t, summary.pipeline);
    push_str(&mut t, "* — `");
    push_str(&mut t, summary.status);
    push_str(&mut t, "` on `");
    push_str(&mut t, summary.branch);
    push_str(&mut t, "` @ `");
    push_str(&mut t, byte_prefix_exec(summary.commit, 8));
    push_str(&mut t, "` (");
    push_decimal(&mut t, summary.duration_secs);
    push_str(&mut t, "s)");
    match summary.failed_stage {
        Some(s) => {
            push_str(&mut t, " — failed at `");
            push_str(&mut t, s);
            push_str(&mut t, "`");
        },
        None => {},
    }
    proof {
        assert(t@ =~= slack_text_spec(*summary));
    }
    t
}

/// The Discord embed color: green for `passed`, red otherwise.
pub fn discord_color(status: &str) -> (res: u32)
    ensures
        res == (if status@ == "passed"@ {
            0x3fb950u32
        } else {
            0xf85149u32
        }),
{
    if str_equal(status, "passed") {
        0x3fb950
    } else {
        0xf85149
    }
}

/// The Discord embed title: `<pipeline> — <STATUS>`.
pub fn discord_title(summary: &RunSummary) -> (res: String)
    ensures
        res@ == summary.pipeline@ + " — "@ + upper(summary.status@),
{
    let mut t = String::new();
    push_str(&mut t, summary.pipeline);
    push_str(&mut t, " — ");
    let up = to_uppercase(summary.status);
    push_str(&mut t, up.as_str());
    proof {
        assert(t@ =~= summary.pipeline@ + " — "@ + upper(summary.status@));
    }
    t
}

/// The commit as shown in notifications: its first 8 bytes, or all of it.
pub fn short_commit<'a>(commit: &'a str) -> (res: &'a str)
    requires
        prefix_on_boundary(commit@, 8),
    ensures
        res@ == short_commit_spec(commit@),
{
    byte_prefix_exec(commit, 8)
}

/// A duration as shown: `<n>s`.
pub fn duration_text(secs: u64) -> (res: String)
    ensures
        res@ == decimal_spec(secs as nat) + "s"@,
{
    let mut t = String::new();
    push_decimal(&mut t, secs);
    push_str(&mut t, "s");
    proof {
        assert(t@ =~= decimal_spec(secs as nat) + "s"@);
    }
    t
}

} // verus!
