//! The decisions of the container runner: the command, name, mount and timeout
//! of a stage's container, and the stage status from the container's exit code.
use vstd::prelude::*;

use crate::pipeline::model::{Stage, StageStatus};
use crate::runner::matrix::join_spec;
use crate::text::{contains_spec, occurs_at, push_char, push_str};

verus! {

/// The step commands of a stage joined with ` && `, so the first failing step
/// stops the rest.
pub open spec fn combined_command_spec(stage: Stage) -> Seq<char> {
    join_spec(stage.steps@.map_values(|s: crate::pipeline::model::Step| s.run@), " && "@)
}

/// The shell command that runs all steps of a stage in its container.
pub fn combined_command(stage: &Stage) -> (res: String)
    ensures
        res@ == combined_command_spec(*stage),
{
    let ghost parts = stage.steps@.map_values(|s: crate::pipeline::model::Step| s.run@);
    let mut out = String::new();
    let mut i: usize = 0;
    while i < stage.steps.len()
        invariant
            i <= stage.steps@.len(),
            parts == stage.steps@.map_values(|s: crate::pipeline::model::Step| s.run@),
            out@ == join_spec(parts.take(i as int), " && "@),
        decreases stage.steps@.len() - i,
    {
        let ghost before = out@;
        if i > 0 {
            push_str(&mut out, " && ");
        }
        push_str(&mut out, stage.steps[i].run.as_str());
        proof {
            let t = parts.take(i + 1);
            assert(t.drop_last() =~= parts.take(i as int));
            assert(t.last() == parts[i as int]);
            if i == 0 {
                assert(out@ =~= parts[0]);
            } else {
                assert(out@ =~= before + " && "@ + parts[i as int]);
            }
        }
        i += 1;
    }
    proof {
        assert(parts.take(stage.steps@.len() as int) =~= parts);
    }
    out
}

/// Each part occurs in the parts joined by a separator.
proof fn lemma_join_contains(parts: Seq<Seq<char>>, sep: Seq<char>, i: int)
    requires
        0 <= i < parts.len(),
    ensures
        contains_spec(join_spec(parts, sep), parts[i]),
    decreases parts.len(),
{
    let j = join_spec(parts, sep);
    if parts.len() == 1 {
        assert(j == parts[0]);
        assert(j.subrange(0, parts[0].len() as int) =~= parts[0]);
        assert(occurs_at(j, parts[i], 0));
    } else {
        let front = join_spec(parts.drop_last(), sep);
        assert(j == front + sep + parts.last());
        if i == parts.len() - 1 {
            let off = (front.len() + sep.len()) as int;
            assert(j.subrange(off, off + parts[i].len()) =~= parts[i]);
            assert(occurs_at(j, parts[i], off));
        } else {
            lemma_join_contains(parts.drop_last(), sep, i);
            assert(parts.drop_last()[i] == parts[i]);
            let off = choose|off: int| occurs_at(front, parts[i], off);
            assert(j.subrange(off, off + parts[i].len()) =~= front.subrange(off, off + parts[i].len()));
            assert(occurs_at(j, parts[i], off));
        }
    }
}

/// Law: the command a container runs holds the command of every step of the
/// stage (joined with ` && `, so any failing step stops the rest).
pub proof fn lemma_combined_command_has_every_step(stage: Stage, i: int)
    requires
        0 <= i < stage.steps@.len(),
    ensures
        contains_spec(combined_command_spec(stage), stage.steps@[i].run@),
{
    let parts = stage.steps@.map_values(|s: crate::pipeline::model::Step| s.run@);
    lemma_join_contains(parts, " && "@, i);
}

/// The name of a stage's container: `rustpipe-<stage>-<suffix>`.
pub fn container_name(stage_name: &str, suffix: &str) -> (res: String)
    ensures
        res@ == "rustpipe-"@ + stage_name@ + "-"@ + suffix@,
{
    let mut out = String::new();
    push_str(&mut out, "rustpipe-");
    push_str(&mut out, stage_name);
    push_str(&mut out, "-");
    push_str(&mut out, suffix);
    proof {
        assert(out@ =~= "rustpipe-"@ + stage_name@ + "-"@ + suffix@);
    }
    out
}

/// The bind mount of the workspace: `<workspace>:/workspace`.
pub fn workspace_bind(workspace: &str) -> (res: String)
    ensures
        res@ == workspace@ + ":/workspace"@,
{
    let mut out = String::new();
    push_str(&mut out, workspace);
    push_str(&mut out, ":/workspace");
    proof {
        assert(out@ =~= workspace@ + ":/workspace"@);
    }
    out
}

/// A stage's timeout in seconds: its own, or 300.
pub fn stage_timeout_secs(stage: &Stage) -> (res: u64)
    ensures
        res == match stage.timeout_secs {
            Some(t) => t,
            None => 300,
        },
{
    match stage.timeout_secs {
        Some(t) => t,
        None => 300,
    }
}

/// The status of a stage from its container's exit code (1 when the wait
/// reported none): passed on 0, failed otherwise.
pub fn exit_status(code: Option<i64>) -> (res: StageStatus)
    ensures
        res == (if code == Some(0i64) {
            StageStatus::Passed
        } else {
            StageStatus::Failed
        }),
{
    match code {
        Some(0) => StageStatus::Passed,
        _ => StageStatus::Failed,
    }
}

/// A number's lower-case hex digits, with no leading zeros (`{:x}`).
pub open spec fn hex_u32_spec(n: nat) -> Seq<char>
    decreases n,
{
    if n < 16 {
        seq![crate::cache::hex_digit(n as u8)]
    } else {
        hex_u32_spec(n / 16).push(crate::cache::hex_digit((n % 16) as u8))
    }
}

/// A number in lower-case hex (`format!("{:x}", n)`).
pub fn hex_u32(n: u32) -> (res: String)
    ensures
        res@ == hex_u32_spec(n as nat),
    decreases n,
{
    if n < 16 {
        let mut s = String::new();
        push_char(&mut s, hex_nibble(n as u8));
        proof {
            assert(s@ =~= hex_u32_spec(n as nat));
        }
        s
    } else {
        let mut s = hex_u32(n / 16);
        push_char(&mut s, hex_nibble((n % 16) as u8));
        s
    }
}

fn hex_nibble(d: u8) -> (res: char)
    requires
        d < 16,
    ensures
        res == crate::cache::hex_digit(d),
{
    if d < 10 {
        (('0' as u8) + d) as char
    } else {
        (('a' as u8) + (d - 10)) as char
    }
}

/// The sub-second nanoseconds of the current time since the Unix epoch
/// (`SystemTime::now().duration_since(UNIX_EPOCH)`, then `subsec_nanos`), or
/// `None` for a clock set before 1970, where `duration_since` fails. The value
/// depends on the clock; all that is stated is that it is below one billion.
#[verifier::external_body]
fn subsec_nanos_now() -> (res: Option<u32>)
    ensures
        res matches Some(n) ==> n < 1_000_000_000,
{
    match std::time::SystemTime::now().duration_since(std::time::UNIX_EPOCH) {
        Ok(d) => Some(d.subsec_nanos()),
        Err(_) => None,
    }
}

/// A short suffix that makes container names unique: the sub-second
/// nanoseconds of the current time in lower-case hex; `None` when the clock is
/// set before 1970 (the caller fails there).
pub fn uuid_short() -> (res: Option<String>)
    ensures
        res matches Some(s) ==> exists|n: nat| n < 1_000_000_000 && s@ == hex_u32_spec(n),
{
    match subsec_nanos_now() {
        Some(n) => Some(hex_u32(n)),
        None => None,
    }
}

} // verus!
