//! The decisions of the shell runner: whether a stage runs, which steps run,
//! how a failing step is retried, and what the stage comes to.
use vstd::prelude::*;

use crate::pipeline::model::{Stage, StageStatus, Step};
use crate::text::{
    blank, chars_of, is_blank, is_ws, lead_count, occurs_at, occurs_exec, str_equal,
    string_from_range, strip_both, strip_bounds, trail_count, trim_spec,
};

verus! {

/// The value a `branch == "x"` condition compares with: the rest trimmed, then
/// stripped of surrounding double quotes.
pub open spec fn when_value(rest: Seq<char>) -> Seq<char> {
    strip_both(trim_spec(rest), Some('"'))
}

/// `branch == "x"` holds on branch `x`, `branch != "x"` on every other branch;
/// any other condition holds.
pub open spec fn eval_when_spec(expr: Seq<char>, branch: Seq<char>) -> bool {
    if occurs_at(expr, "branch == "@, 0) {
        branch == when_value(expr.skip("branch == "@.len() as int))
    } else if occurs_at(expr, "branch != "@, 0) {
        branch != when_value(expr.skip("branch != "@.len() as int))
    } else {
        true
    }
}

/// A plain `when` value: empty, or starting and ending with a character that
/// is neither white space nor a double quote.
pub open spec fn plain_value(x: Seq<char>) -> bool {
    x.len() == 0 || (!is_ws(x[0]) && x[0] != '"' && !is_ws(x.last()) && x.last() != '"')
}

/// A quoted plain value reads back as the value itself.
proof fn lemma_quoted_value(x: Seq<char>)
    requires
        plain_value(x),
    ensures
        when_value(seq!['"'] + x + seq!['"']) == x,
{
    let q = seq!['"'] + x + seq!['"'];
    assert(q[0] == '"');
    assert(q.last() == '"');
    assert(!is_ws('"'));
    assert(lead_count(q, None) == 0);
    assert(q.skip(0) =~= q);
    assert(trail_count(q, None) == 0);
    assert(q.take(q.len() as int) =~= q);
    assert(trim_spec(q) == q);
    let r = q.drop_first();
    assert(r =~= x + seq!['"']);
    if x.len() == 0 {
        assert(r.drop_first().len() == 0);
        assert(lead_count(r.drop_first(), Some('"')) == 0);
        assert(lead_count(r, Some('"')) == 1);
        assert(lead_count(q, Some('"')) == 2);
        assert(q.skip(2) =~= Seq::<char>::empty());
        assert(trail_count(Seq::<char>::empty(), Some('"')) == 0);
        assert(Seq::<char>::empty().take(0) =~= x);
    } else {
        assert(r[0] == x[0]);
        assert(lead_count(r, Some('"')) == 0);
        assert(lead_count(q, Some('"')) == 1);
        assert(q.skip(1) =~= r);
        assert(r.drop_last() =~= x);
        assert(trail_count(x, Some('"')) == 0);
        assert(trail_count(r, Some('"')) == 1);
        assert(r.take(r.len() - 1) =~= x);
    }
}

/// Law: a `when` condition on a plain value compares the whole branch name:
/// `branch == "x"` holds on branch `x` and on no other branch (not on one that
/// merely starts with `x`), and `branch != "x"` on every branch but `x`.
pub proof fn lemma_when_exact(x: Seq<char>, b: Seq<char>)
    requires
        plain_value(x),
    ensures
        eval_when_spec("branch == "@ + seq!['"'] + x + seq!['"'], b) == (b == x),
        eval_when_spec("branch != "@ + seq!['"'] + x + seq!['"'], b) == (b != x),
{
    reveal_strlit("branch == ");
    reveal_strlit("branch != ");
    let q = seq!['"'] + x + seq!['"'];
    lemma_quoted_value(x);
    let e1 = "branch == "@ + seq!['"'] + x + seq!['"'];
    let e2 = "branch != "@ + seq!['"'] + x + seq!['"'];
    assert(e1 =~= "branch == "@ + q);
    assert(e2 =~= "branch != "@ + q);
    assert(e1.subrange(0, 10) =~= "branch == "@);
    assert(e2.subrange(0, 10) =~= "branch != "@);
    assert(e1.skip(10) =~= q);
    assert(e2.skip(10) =~= q);
    assert(e2.subrange(0, 10)[7] != "branch == "@[7]);
}

/// The value compared with, for the text of `v` from `lo` on.
fn when_value_exec(v: &Vec<char>, lo: usize) -> (res: String)
    requires
        lo <= v.len(),
    ensures
        res@ == when_value(v@.skip(lo as int)),
{
    let (a, b) = strip_bounds(v, lo, v.len(), None);
    let (c, d) = strip_bounds(v, a, b, Some('"'));
    proof {
        assert(v@.subrange(lo as int, v@.len() as int) =~= v@.skip(lo as int));
    }
    string_from_range(v, c, d)
}

/// Evaluates a `when:` condition of the form `branch == "value"` or
/// `branch != "value"` on a branch; an unknown condition allows the stage.
pub fn eval_when(expr: &str, branch: &str) -> (res: bool)
    ensures
        res == eval_when_spec(expr@, branch@),
{
    let v = chars_of(expr);
    let eq = chars_of("branch == ");
    let ne = chars_of("branch != ");
    if occurs_exec(&v, &eq, 0) {
        let expected = when_value_exec(&v, eq.len());
        return str_equal(branch, expected.as_str());
    }
    if occurs_exec(&v, &ne, 0) {
        let expected = when_value_exec(&v, ne.len());
        return !str_equal(branch, expected.as_str());
    }
    true
}

/// A stage runs unless its `when:` condition is false on the branch.
pub open spec fn stage_runs_spec(stage: Stage, branch: Seq<char>) -> bool {
    match stage.when {
        Some(w) => eval_when_spec(w@, branch),
        None => true,
    }
}

/// Whether the stage runs on `branch` (otherwise it is skipped).
pub fn stage_runs(stage: &Stage, branch: &str) -> (res: bool)
    ensures
        res == stage_runs_spec(*stage, branch@),
{
    match &stage.when {
        Some(w) => eval_when(w.as_str(), branch),
        None => true,
    }
}

/// The indices of the steps with a command that is not blank, in order.
pub open spec fn runnable_upto(steps: Seq<Step>, m: int) -> Seq<usize>
    decreases m,
{
    if m <= 0 {
        Seq::empty()
    } else if blank(steps[m - 1].run@) {
        runnable_upto(steps, m - 1)
    } else {
        runnable_upto(steps, m - 1).push((m - 1) as usize)
    }
}

/// The steps that run: those whose command is not blank.
pub fn runnable_steps(stage: &Stage) -> (res: Vec<usize>)
    ensures
        res@ == runnable_upto(stage.steps@, stage.steps@.len() as int),
{
    let mut res: Vec<usize> = Vec::new();
    let mut i: usize = 0;
    while i < stage.steps.len()
        invariant
            i <= stage.steps@.len(),
            res@ == runnable_upto(stage.steps@, i as int),
        decreases stage.steps@.len() - i,
    {
        if !is_blank(stage.steps[i].run.as_str()) {
            res.push(i);
        }
        i += 1;
    }
    res
}

proof fn lemma_runnable_upto_exact(steps: Seq<Step>, m: int)
    requires
        0 <= m <= steps.len(),
        steps.len() <= usize::MAX,
    ensures
        forall|i: int|
            0 <= i < steps.len() ==> (runnable_upto(steps, m).contains(i as usize) <==> (i < m
                && !blank(#[trigger] steps[i].run@))),
        forall|a: int, b: int|
            0 <= a < b < runnable_upto(steps, m).len() ==> runnable_upto(steps, m)[a]
                < runnable_upto(steps, m)[b],
        forall|a: int| 0 <= a < runnable_upto(steps, m).len() ==> runnable_upto(steps, m)[a] < m,
    decreases m,
{
    if m > 0 {
        lemma_runnable_upto_exact(steps, m - 1);
        let prev = runnable_upto(steps, m - 1);
        let cur = runnable_upto(steps, m);
        if !blank(steps[m - 1].run@) {
            assert(cur == prev.push((m - 1) as usize));
            assert forall|i: int| 0 <= i < steps.len() implies (cur.contains(i as usize) <==> (i < m
                && !blank(#[trigger] steps[i].run@))) by {
                if cur.contains(i as usize) {
                    let x = choose|x: int| 0 <= x < cur.len() && cur[x] == i as usize;
                    if x < prev.len() {
                        assert(prev[x] == cur[x]);
                        assert(prev.contains(i as usize));
                    }
                }
                if i < m && !blank(steps[i].run@) {
                    if i == m - 1 {
                        assert(cur[prev.len() as int] == i as usize);
                    } else {
                        assert(prev.contains(i as usize));
                        let x = choose|x: int| 0 <= x < prev.len() && prev[x] == i as usize;
                        assert(cur[x] == prev[x]);
                    }
                }
            }
            assert forall|a: int| 0 <= a < cur.len() implies cur[a] < m by {
                if a < prev.len() {
                    assert(cur[a] == prev[a]);
                }
            }
        } else {
            assert forall|i: int| 0 <= i < steps.len() implies (cur.contains(i as usize) <==> (i < m
                && !blank(#[trigger] steps[i].run@))) by {
                if cur.contains(i as usize) {
                    let x = choose|x: int| 0 <= x < cur.len() && cur[x] == i as usize;
                    assert(cur[x] < m - 1);
                }
            }
        }
    }
}

/// Law: the steps that run are exactly the steps whose command is not blank,
/// every one of them, in the stage's order.
pub proof fn lemma_runnable_steps_exact(steps: Seq<Step>)
    requires
        steps.len() <= usize::MAX,
    ensures
        forall|i: int|
            0 <= i < steps.len() ==> (runnable_upto(steps, steps.len() as int).contains(i as usize)
                <==> !blank(#[trigger] steps[i].run@)),
        forall|a: int, b: int|
            0 <= a < b < runnable_upto(steps, steps.len() as int).len() ==> runnable_upto(
                steps,
                steps.len() as int,
            )[a] < runnable_upto(steps, steps.len() as int)[b],
{
    lemma_runnable_upto_exact(steps, steps.len() as int);
}

/// How often a step is tried: its `retry.attempts`, or once.
pub open spec fn attempts_spec(step: Step) -> u32 {
    match step.retry {
        Some(r) => r.attempts,
        None => 1,
    }
}

/// How often a step is tried.
pub fn step_attempts(step: &Step) -> (res: u32)
    ensures
        res == attempts_spec(*step),
{
    match &step.retry {
        Some(r) => r.attempts,
        None => 1,
    }
}

/// The first delay between tries, in milliseconds; it doubles after each wait.
pub const FIRST_DELAY_MS: u128 = 500;

/// The longest `std::time::Duration`, in whole milliseconds.
pub const MAX_DELAY_MS: u128 = 18446744073709551615999;

/// The retry state of a step: tries made, tries allowed, and the next delay.
#[derive(Clone, Copy, Debug, PartialEq, Eq, Structural)]
pub struct StepRetry {
    pub tries: u32,
    pub attempts: u32,
    pub delay_ms: u128,
}

/// The wait before retry `k` (counting from 0): 500 ms, doubling each time.
pub open spec fn backoff_ms(k: nat) -> nat
    decreases k,
{
    if k == 0 {
        FIRST_DELAY_MS as nat
    } else {
        2 * backoff_ms((k - 1) as nat)
    }
}

/// What to do after a try of a step.
#[derive(Clone, Copy, Debug, PartialEq, Eq, Structural)]
pub enum RetryAction {
    /// Wait this long, then try again.
    RetryAfter { delay_ms: u128 },
    /// The step is over with this exit code.
    Done { code: i32 },
}

impl StepRetry {
    /// No try made yet; the first delay is 500 ms.
    pub fn new(attempts: u32) -> (res: Self)
        ensures
            res == (StepRetry { tries: 0, attempts, delay_ms: FIRST_DELAY_MS }),
    {
        StepRetry { tries: 0, attempts, delay_ms: FIRST_DELAY_MS }
    }

    /// Whether a try is to be made now. With no attempts allowed the step never
    /// runs and ends with exit code 1.
    pub fn should_try(&self) -> (res: bool)
        ensures
            res == (self.tries < self.attempts),
    {
        self.tries < self.attempts
    }

    /// The state and action after a try that exited with `code`: success ends the
    /// step; a failure with tries left waits the current delay, which then doubles;
    /// a failure on the last try ends the step with that code.
    pub fn after_try(&self, code: i32) -> (res: (StepRetry, RetryAction))
        requires
            self.tries < self.attempts,
            code != 0 && self.tries + 1 < self.attempts ==> 2 * self.delay_ms <= MAX_DELAY_MS,
        ensures
            res == retry_next(*self, code),
            res.0.tries == self.tries + 1,
            res.0.attempts == self.attempts,
            code == 0 ==> res.1 == (RetryAction::Done { code: 0 }) && res.0.delay_ms
                == self.delay_ms,
            code != 0 && self.tries + 1 < self.attempts ==> res.1 == (RetryAction::RetryAfter {
                delay_ms: self.delay_ms,
            }) && res.0.delay_ms == 2 * self.delay_ms,
            code != 0 && self.tries + 1 >= self.attempts ==> res.1 == (RetryAction::Done { code })
                && res.0.delay_ms == self.delay_ms,
    {
        let tries = self.tries + 1;
        if code == 0 {
            (StepRetry { tries, attempts: self.attempts, delay_ms: self.delay_ms }, RetryAction::Done {
                code: 0,
            })
        } else if tries < self.attempts {
            (
                StepRetry { tries, attempts: self.attempts, delay_ms: 2 * self.delay_ms },
                RetryAction::RetryAfter { delay_ms: self.delay_ms },
            )
        } else {
            (StepRetry { tries, attempts: self.attempts, delay_ms: self.delay_ms }, RetryAction::Done {
                code,
            })
        }
    }
}

/// The state and action after a try that exited with `code` (see `after_try`).
pub open spec fn retry_next(r: StepRetry, code: i32) -> (StepRetry, RetryAction) {
    let tries = (r.tries + 1) as u32;
    if code == 0 {
        (StepRetry { tries, attempts: r.attempts, delay_ms: r.delay_ms }, RetryAction::Done { code: 0 })
    } else if tries < r.attempts {
        (
            StepRetry { tries, attempts: r.attempts, delay_ms: (2 * r.delay_ms) as u128 },
            RetryAction::RetryAfter { delay_ms: r.delay_ms },
        )
    } else {
        (StepRetry { tries, attempts: r.attempts, delay_ms: r.delay_ms }, RetryAction::Done { code })
    }
}

/// The retry state after `k` failed tries (every non-zero exit code acts alike).
pub open spec fn after_failures(r: StepRetry, k: nat) -> StepRetry
    decreases k,
{
    if k == 0 {
        r
    } else {
        retry_next(after_failures(r, (k - 1) as nat), 1).0
    }
}

/// Law: exponential backoff. From a fresh state, after `k` failed tries
/// (with tries left) the step has been tried `k` times, the next wait is
/// `500 * 2^k` ms, and a failure on the last allowed try ends the step with
/// its code.
pub proof fn lemma_backoff_doubles(attempts: u32, k: nat, code: i32)
    requires
        code != 0,
        k < attempts,
        backoff_ms(k) <= MAX_DELAY_MS,
    ensures
        after_failures(StepRetry::new_spec(attempts), k).tries == k,
        after_failures(StepRetry::new_spec(attempts), k).attempts == attempts,
        after_failures(StepRetry::new_spec(attempts), k).delay_ms == backoff_ms(k),
        k + 1 < attempts ==> retry_next(after_failures(StepRetry::new_spec(attempts), k), code).1
            == (RetryAction::RetryAfter { delay_ms: backoff_ms(k) as u128 }),
        k + 1 == attempts ==> retry_next(after_failures(StepRetry::new_spec(attempts), k), code).1
            == (RetryAction::Done { code }),
    decreases k,
{
    if k > 0 {
        lemma_backoff_pos(k);
        lemma_backoff_doubles(attempts, (k - 1) as nat, code);
    }
}

proof fn lemma_backoff_pos(k: nat)
    ensures
        backoff_ms(k) >= FIRST_DELAY_MS,
    decreases k,
{
    if k > 0 {
        lemma_backoff_pos((k - 1) as nat);
    }
}

/// The exit code a step ends with when it is never tried.
pub const UNTRIED_CODE: i32 = 1;

/// What the shell runner does next for a stage.
#[derive(Clone, Copy, Debug, PartialEq, Eq, Structural)]
pub enum StageAction {
    /// Run step `step` (an index into the stage's steps).
    Run { step: usize },
    /// Wait `delay_ms` milliseconds, then run step `step` again.
    RetryAfter { step: usize, delay_ms: u128 },
    /// Step `step` is over with exit code `code` (logged, then `advance`).
    StepOver { step: usize, code: i32 },
    /// The stage is over with this status.
    Finish { status: StageStatus },
}

/// A stage being run in the shell: the steps that run (in order, with how often
/// each may be tried), the current one, its retry state, and the final exit
/// codes of the steps that are over.
pub struct StageRun {
    pub order: Vec<usize>,
    pub attempts: Vec<u32>,
    pub pos: usize,
    pub retry: StepRetry,
    pub codes: Vec<i32>,
}

/// The runnable steps and their attempts agree, and every step before the
/// current one passed.
pub open spec fn stage_run_wf(r: StageRun) -> bool {
    &&& r.order@.len() == r.attempts@.len()
    &&& r.pos <= r.order@.len()
    &&& r.pos <= r.codes@.len() <= r.pos + 1
    &&& r.codes@.len() <= r.order@.len()
    &&& forall|i: int| 0 <= i < r.pos ==> r.codes@[i] == 0
}

/// A try of the current step is under way.
pub open spec fn stage_run_trying(r: StageRun) -> bool {
    &&& stage_run_wf(r)
    &&& r.pos < r.order@.len()
    &&& r.codes@.len() == r.pos
    &&& r.retry.tries < r.retry.attempts
    &&& r.retry.attempts == r.attempts@[r.pos as int]
}

/// The current step is over and its code recorded.
pub open spec fn stage_run_step_over(r: StageRun) -> bool {
    &&& stage_run_wf(r)
    &&& r.codes@.len() == r.pos + 1
}

/// What starting step `pos` gives, with `codes` the codes of the steps before
/// it: the stage passes when no step is left; a step that may not be tried is
/// over at once with exit code 1; otherwise it runs.
pub open spec fn begin_ok(
    order: Seq<usize>,
    attempts: Seq<u32>,
    pos: int,
    codes: Seq<i32>,
    new: StageRun,
    act: StageAction,
) -> bool {
    &&& new.order@ == order
    &&& new.attempts@ == attempts
    &&& new.pos == pos
    &&& stage_run_wf(new)
    &&& if pos == order.len() {
        act == (StageAction::Finish { status: StageStatus::Passed }) && new.codes@ == codes
    } else if attempts[pos] == 0 {
        &&& act == (StageAction::StepOver { step: order[pos], code: UNTRIED_CODE })
        &&& new.codes@ == codes.push(UNTRIED_CODE)
        &&& stage_run_step_over(new)
    } else {
        &&& act == (StageAction::Run { step: order[pos] })
        &&& new.retry == StepRetry::new_spec(attempts[pos])
        &&& new.codes@ == codes
        &&& stage_run_trying(new)
    }
}

impl StepRetry {
    /// The state before the first try.
    pub open spec fn new_spec(attempts: u32) -> StepRetry {
        StepRetry { tries: 0, attempts, delay_ms: FIRST_DELAY_MS }
    }
}

impl StageRun {
    /// Starts step `pos`.
    fn begin(self) -> (res: (StageRun, StageAction))
        requires
            stage_run_wf(self),
            self.codes@.len() == self.pos,
        ensures
            begin_ok(self.order@, self.attempts@, self.pos as int, self.codes@, res.0, res.1),
    {
        let StageRun { order, attempts, pos, retry, mut codes } = self;
        if pos == order.len() {
            return (
                StageRun { order, attempts, pos, retry, codes },
                StageAction::Finish { status: StageStatus::Passed },
            );
        }
        let a = attempts[pos];
        let step = order[pos];
        let retry = StepRetry::new(a);
        if !retry.should_try() {
            codes.push(UNTRIED_CODE);
            return (
                StageRun { order, attempts, pos, retry, codes },
                StageAction::StepOver { step, code: UNTRIED_CODE },
            );
        }
        (StageRun { order, attempts, pos, retry, codes }, StageAction::Run { step })
    }

    /// Starts a stage on `branch`: a stage whose `when:` condition is false is
    /// skipped, and so is a stage whose inputs are unchanged since it last passed
    /// (`cached`: its cache key is stored); otherwise its non-blank steps run in
    /// order, from the first.
    pub fn start(stage: &Stage, branch: &str, cached: bool) -> (res: (StageRun, StageAction))
        ensures
            !stage_runs_spec(*stage, branch@) || cached ==> res.1 == (StageAction::Finish {
                status: StageStatus::Skipped,
            }),
            stage_runs_spec(*stage, branch@) && !cached ==> {
                &&& res.0.order@ == runnable_upto(stage.steps@, stage.steps@.len() as int)
                &&& forall|i: int|
                    0 <= i < res.0.order@.len() ==> #[trigger] res.0.attempts@[i] == attempts_spec(
                        stage.steps@[res.0.order@[i] as int],
                    )
                &&& begin_ok(res.0.order@, res.0.attempts@, 0, Seq::empty(), res.0, res.1)
            },
    {
        let order = runnable_steps(stage);
        let mut attempts: Vec<u32> = Vec::new();
        let mut i: usize = 0;
        let n = stage.steps.len();
        proof {
            lemma_runnable_in_range(stage.steps@, n as int);
        }
        while i < order.len()
            invariant
                order@ == runnable_upto(stage.steps@, stage.steps@.len() as int),
                forall|j: int| 0 <= j < order@.len() ==> order@[j] < stage.steps@.len(),
                i <= order@.len(),
                attempts@.len() == i,
                forall|j: int|
                    0 <= j < i ==> #[trigger] attempts@[j] == attempts_spec(
                        stage.steps@[order@[j] as int],
                    ),
            decreases order@.len() - i,
        {
            attempts.push(step_attempts(&stage.steps[order[i]]));
            i += 1;
        }
        let run = StageRun {
            order,
            attempts,
            pos: 0,
            retry: StepRetry::new(0),
            codes: Vec::new(),
        };
        if cached || !stage_runs(stage, branch) {
            return (run, StageAction::Finish { status: StageStatus::Skipped });
        }
        proof {
            assert(run.codes@ =~= Seq::<i32>::empty());
        }
        run.begin()
    }

    /// The current try of the step exited with `code`: the step is over on
    /// success or after its last try; otherwise it is tried again after the
    /// current delay, which then doubles.
    pub fn ran(self, code: i32) -> (res: (StageRun, StageAction))
        requires
            stage_run_trying(self),
            code != 0 && self.retry.tries + 1 < self.retry.attempts ==> 2 * self.retry.delay_ms
                <= MAX_DELAY_MS,
        ensures
            res.0.order == self.order,
            res.0.attempts == self.attempts,
            res.0.pos == self.pos,
            res.0.retry.tries == self.retry.tries + 1,
            code != 0 && self.retry.tries + 1 < self.retry.attempts ==> {
                &&& res.1 == (StageAction::RetryAfter {
                    step: self.order@[self.pos as int],
                    delay_ms: self.retry.delay_ms,
                })
                &&& res.0.retry.delay_ms == 2 * self.retry.delay_ms
                &&& res.0.codes@ == self.codes@
                &&& stage_run_trying(res.0)
            },
            code == 0 || self.retry.tries + 1 >= self.retry.attempts ==> {
                &&& res.1 == (StageAction::StepOver { step: self.order@[self.pos as int], code })
                &&& res.0.codes@ == self.codes@.push(code)
                &&& stage_run_step_over(res.0)
            },
    {
        let StageRun { order, attempts, pos, retry, mut codes } = self;
        let step = order[pos];
        let (retry, action) = retry.after_try(code);
        match action {
            RetryAction::RetryAfter { delay_ms } => {
                (StageRun { order, attempts, pos, retry, codes }, StageAction::RetryAfter {
                    step,
                    delay_ms,
                })
            },
            RetryAction::Done { code } => {
                codes.push(code);
                (StageRun { order, attempts, pos, retry, codes }, StageAction::StepOver { step, code })
            },
        }
    }

    /// After a step is over: the stage fails if the step did, and otherwise
    /// goes on with the next step (or passes when none is left).
    pub fn advance(self) -> (res: (StageRun, StageAction))
        requires
            stage_run_step_over(self),
        ensures
            self.codes@[self.pos as int] != 0 ==> res.1 == (StageAction::Finish {
                status: StageStatus::Failed,
            }) && res.0.codes@ == self.codes@,
            self.codes@[self.pos as int] == 0 ==> begin_ok(
                self.order@,
                self.attempts@,
                self.pos + 1,
                self.codes@,
                res.0,
                res.1,
            ),
            res.1 matches StageAction::Finish { status } ==> status == stage_outcome_spec(
                res.0.codes@,
            ),
    {
        let failed = self.codes[self.pos] != 0;
        if failed {
            proof {
                assert(self.codes@[self.pos as int] != 0);
            }
            return (self, StageAction::Finish { status: StageStatus::Failed });
        }
        let StageRun { order, attempts, pos, retry, codes } = self;
        let n = order.len();
        assert(pos < n);
        let next = StageRun { order, attempts, pos: pos + 1, retry, codes };
        let res = next.begin();
        proof {
            if res.1 matches StageAction::Finish { status } {
                assert forall|i: int| 0 <= i < res.0.codes@.len() implies res.0.codes@[i] == 0 by {}
            }
        }
        res
    }
}

/// The runnable steps are steps of the stage.
pub proof fn lemma_runnable_in_range(steps: Seq<Step>, m: int)
    requires
        0 <= m <= steps.len(),
        steps.len() <= usize::MAX,
    ensures
        forall|j: int|
            0 <= j < runnable_upto(steps, m).len() ==> #[trigger] runnable_upto(steps, m)[j] < m,
    decreases m,
{
    if m > 0 {
        lemma_runnable_in_range(steps, m - 1);
        let prev = runnable_upto(steps, m - 1);
        let cur = runnable_upto(steps, m);
        if !blank(steps[m - 1].run@) {
            assert(cur == prev.push((m - 1) as usize));
            assert forall|j: int| 0 <= j < cur.len() implies #[trigger] cur[j] < m by {
                if j < prev.len() {
                    assert(cur[j] == prev[j]);
                }
            }
        }
    }
}

/// A stage passes when every step that ran ended with exit code 0; the first
/// step with another code fails it.
pub open spec fn stage_outcome_spec(codes: Seq<i32>) -> StageStatus {
    if exists|i: int| 0 <= i < codes.len() && codes[i] != 0 {
        StageStatus::Failed
    } else {
        StageStatus::Passed
    }
}

/// Law: a stage fails as soon as any step that ran ended with a non-zero exit
/// code, wherever that step stands, and passes when all ended with 0.
pub proof fn lemma_stage_outcome_any_failed(codes: Seq<i32>, i: int)
    ensures
        0 <= i < codes.len() && codes[i] != 0 ==> stage_outcome_spec(codes) == StageStatus::Failed,
        (forall|j: int| 0 <= j < codes.len() ==> codes[j] == 0) ==> stage_outcome_spec(codes)
            == StageStatus::Passed,
{
}

/// The status of a stage from the final exit codes of its steps, in order (the
/// runner stops at the first failing step).
pub fn stage_outcome(codes: &Vec<i32>) -> (res: StageStatus)
    ensures
        res == stage_outcome_spec(codes@),
{
    let mut i: usize = 0;
    while i < codes.len()
        invariant
            i <= codes@.len(),
            forall|j: int| 0 <= j < i ==> codes@[j] == 0,
        decreases codes@.len() - i,
    {
        if codes[i] != 0 {
            return StageStatus::Failed;
        }
        i += 1;
    }
    StageStatus::Passed
}

} // verus!
