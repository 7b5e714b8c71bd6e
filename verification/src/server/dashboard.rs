//! Live log streaming: the messages sent over a run's WebSocket.
use vstd::prelude::*;

use crate::server::api::RunRecord;
use crate::text::{decimal_spec, push_decimal, push_str};

verus! {

/// The index of the first run with id `id`.
pub fn find_run(runs: &Vec<RunRecord>, id: u64) -> (res: Option<usize>)
    ensures
        match res {
            Some(i) => i < runs@.len() && runs@[i as int].id == id && forall|j: int|
                0 <= j < i ==> (#[trigger] runs@[j]).id != id,
            None => forall|j: int| 0 <= j < runs@.len() ==> (#[trigger] runs@[j]).id != id,
        },
{
    let mut i: usize = 0;
    while i < runs.len()
        invariant
            i <= runs@.len(),
            forall|j: int| 0 <= j < i ==> (#[trigger] runs@[j]).id != id,
        decreases runs@.len() - i,
    {
        if runs[i].id == id {
            return Some(i);
        }
        i += 1;
    }
    None
}

/// The number of log lines streamed before `done`.
pub const LOG_LINES: u32 = 20;

/// The text of log line `line` of run `run_id`: `[run <id>] step output line <n>`.
pub open spec fn log_line_text(run_id: u64, line: u32) -> Seq<char> {
    "[run "@ + decimal_spec(run_id as nat) + "] step output line "@ + decimal_spec(line as nat)
}

/// The text of log line `line` of run `run_id`: `[run <id>] step output line <n>`.
pub fn ws_log_text(run_id: u64, line: u32) -> (res: String)
    ensures
        res@ == log_line_text(run_id, line),
{
    let mut s = String::new();
    push_str(&mut s, "[run ");
    push_decimal(&mut s, run_id);
    push_str(&mut s, "] step output line ");
    push_decimal(&mut s, line as u64);
    proof {
        assert(s@ =~= "[run "@ + decimal_spec(run_id as nat) + "] step output line "@
            + decimal_spec(line as nat));
    }
    s
}

/// Whether the stream ends after sending line `line`.
pub fn ws_stream_done(line: u32) -> (res: bool)
    ensures
        res == (line >= LOG_LINES),
{
    line >= LOG_LINES
}

/// One tick of a run's log stream, after line `line` was sent (0 before the
/// first): the next line's number, its text, and whether the stream ends with
/// it (a `done` message follows the last line).
pub fn ws_next(run_id: u64, line: u32) -> (res: (u32, String, bool))
    requires
        line < LOG_LINES,
    ensures
        res.0 == line + 1,
        res.1@ == log_line_text(run_id, res.0),
        res.2 == (res.0 >= LOG_LINES),
{
    let next = line + 1;
    (next, ws_log_text(run_id, next), ws_stream_done(next))
}

} // verus!
