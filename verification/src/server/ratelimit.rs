//! Rate limiting: at most 100 requests pass in any one-second sliding window.
use vstd::prelude::*;

verus! {

/// The times (in milliseconds) of the passed requests among `passed` that are
/// still in the one-second window ending at `now`, in order.
pub open spec fn in_window(passed: Seq<u64>, now: u64) -> Seq<u64>
    decreases passed.len(),
{
    if passed.len() == 0 {
        Seq::empty()
    } else if passed.last() + 1000 > now {
        in_window(passed.drop_last(), now).push(passed.last())
    } else {
        in_window(passed.drop_last(), now)
    }
}

/// One request at time `now`, given the times of earlier passed requests: it
/// passes when fewer than 100 of them lie in the second before it; the times
/// kept are those in that second, and its own when it passes.
pub open spec fn rate_limit_spec(passed: Seq<u64>, now: u64) -> (Seq<u64>, bool) {
    let w = in_window(passed, now);
    if w.len() < 100 {
        (w.push(now), true)
    } else {
        (w, false)
    }
}

/// Decides one request at time `now_ms`; `window` holds the times of the
/// passed requests that may still count.
pub fn rate_limit_step(window: &mut Vec<u64>, now_ms: u64) -> (passed: bool)
    ensures
        (final(window)@, passed) == rate_limit_spec(old(window)@, now_ms),
{
    let mut kept: Vec<u64> = Vec::new();
    let mut i: usize = 0;
    while i < window.len()
        invariant
            i <= old(window)@.len(),
            window@ == old(window)@,
            kept@ == in_window(old(window)@.take(i as int), now_ms),
        decreases old(window)@.len() - i,
    {
        let t = window[i];
        proof {
            let s = old(window)@.take(i + 1);
            assert(s.drop_last() =~= old(window)@.take(i as int));
            assert(s.last() == t);
        }
        if t >= now_ms || now_ms - t < 1000 {
            kept.push(t);
        }
        i += 1;
    }
    proof {
        assert(old(window)@.take(old(window)@.len() as int) =~= old(window)@);
    }
    let passed = kept.len() < 100;
    if passed {
        kept.push(now_ms);
    }
    *window = kept;
    passed
}

/// The window and the decisions after requests at the times `ts`, starting
/// with an empty window.
pub open spec fn limiter_run(ts: Seq<u64>) -> (Seq<u64>, Seq<bool>)
    decreases ts.len(),
{
    if ts.len() == 0 {
        (Seq::empty(), Seq::empty())
    } else {
        let prev = limiter_run(ts.drop_last());
        let step = rate_limit_spec(prev.0, ts.last());
        (step.0, prev.1.push(step.1))
    }
}

/// The times are in order (as a monotonic clock gives them).
pub open spec fn nondecreasing(ts: Seq<u64>) -> bool {
    forall|i: int, j: int| 0 <= i <= j < ts.len() ==> ts[i] <= ts[j]
}

/// The number of passed requests among the first `m` whose time lies in the
/// one-second interval `[x, x + 1000)`.
pub open spec fn passed_in(ts: Seq<u64>, ps: Seq<bool>, m: int, x: int) -> nat
    decreases m,
{
    if m <= 0 {
        0
    } else {
        passed_in(ts, ps, m - 1, x) + if ps[m - 1] && x <= ts[m - 1] < x + 1000 {
            1nat
        } else {
            0nat
        }
    }
}

/// The times of the passed requests among the first `m` that are less than a
/// second older than `now`, in order.
pub open spec fn kept(ts: Seq<u64>, ps: Seq<bool>, m: int, now: int) -> Seq<u64>
    decreases m,
{
    if m <= 0 {
        Seq::empty()
    } else if ps[m - 1] && ts[m - 1] + 1000 > now {
        kept(ts, ps, m - 1, now).push(ts[m - 1])
    } else {
        kept(ts, ps, m - 1, now)
    }
}

proof fn lemma_run_len(ts: Seq<u64>)
    ensures
        limiter_run(ts).1.len() == ts.len(),
    decreases ts.len(),
{
    if ts.len() > 0 {
        lemma_run_len(ts.drop_last());
    }
}

proof fn lemma_kept_agree(ts1: Seq<u64>, ps1: Seq<bool>, ts2: Seq<u64>, ps2: Seq<bool>, m: int, now: int)
    requires
        0 <= m <= ts1.len(),
        m <= ts2.len(),
        m <= ps1.len(),
        m <= ps2.len(),
        forall|j: int| 0 <= j < m ==> ts1[j] == ts2[j] && ps1[j] == ps2[j],
    ensures
        kept(ts1, ps1, m, now) == kept(ts2, ps2, m, now),
    decreases m,
{
    if m > 0 {
        lemma_kept_agree(ts1, ps1, ts2, ps2, m - 1, now);
    }
}

proof fn lemma_passed_in_agree(
    ts1: Seq<u64>,
    ps1: Seq<bool>,
    ts2: Seq<u64>,
    ps2: Seq<bool>,
    m: int,
    x: int,
)
    requires
        0 <= m <= ts1.len(),
        m <= ts2.len(),
        m <= ps1.len(),
        m <= ps2.len(),
        forall|j: int| 0 <= j < m ==> ts1[j] == ts2[j] && ps1[j] == ps2[j],
    ensures
        passed_in(ts1, ps1, m, x) == passed_in(ts2, ps2, m, x),
    decreases m,
{
    if m > 0 {
        lemma_passed_in_agree(ts1, ps1, ts2, ps2, m - 1, x);
    }
}

/// Narrowing the window to a later end drops exactly the times that fell out.
proof fn lemma_window_of_kept(ts: Seq<u64>, ps: Seq<bool>, m: int, now1: int, now2: u64)
    requires
        0 <= m <= ts.len(),
        m <= ps.len(),
        now1 <= now2,
    ensures
        in_window(kept(ts, ps, m, now1), now2) == kept(ts, ps, m, now2 as int),
    decreases m,
{
    if m > 0 {
        lemma_window_of_kept(ts, ps, m - 1, now1, now2);
        let k1 = kept(ts, ps, m, now1);
        if ps[m - 1] && ts[m - 1] + 1000 > now1 {
            assert(k1.drop_last() == kept(ts, ps, m - 1, now1));
            assert(k1.last() == ts[m - 1]);
        }
    }
}

/// The window after a run holds the passed requests less than a second older
/// than the last request.
proof fn lemma_run_state(ts: Seq<u64>)
    requires
        nondecreasing(ts),
        ts.len() > 0,
    ensures
        limiter_run(ts).0 == kept(ts, limiter_run(ts).1, ts.len() as int, ts.last() as int),
    decreases ts.len(),
{
    let n = ts.len() as int;
    let init = ts.drop_last();
    let t = ts.last();
    let prev = limiter_run(init);
    let ps = limiter_run(ts).1;
    lemma_run_len(ts);
    lemma_run_len(init);
    assert(ps == prev.1.push(rate_limit_spec(prev.0, t).1));
    assert forall|j: int| 0 <= j < n - 1 implies init[j] == ts[j] && prev.1[j] == ps[j] by {}
    if n == 1 {
        assert(prev.0 == Seq::<u64>::empty());
        assert(in_window(prev.0, t) == Seq::<u64>::empty());
        assert(kept(ts, ps, 0, t as int) == Seq::<u64>::empty());
    } else {
        assert(nondecreasing(init));
        lemma_run_state(init);
        let t0 = init.last();
        assert(t0 == ts[n - 2]);
        assert(t0 <= t);
        lemma_kept_agree(init, prev.1, ts, ps, n - 1, t0 as int);
        lemma_window_of_kept(ts, ps, n - 1, t0 as int, t);
    }
}

/// Every counted request lies in the window ending at `now`.
proof fn lemma_count_le_kept(ts: Seq<u64>, ps: Seq<bool>, m: int, x: int, now: int)
    requires
        0 <= m <= ts.len(),
        m <= ps.len(),
        now < x + 1000,
    ensures
        passed_in(ts, ps, m, x) <= kept(ts, ps, m, now).len(),
    decreases m,
{
    if m > 0 {
        lemma_count_le_kept(ts, ps, m - 1, x, now);
    }
}

/// Law: at most 100 requests pass in any one-second interval, for requests
/// that arrive in time order.
pub proof fn lemma_at_most_100_per_second(ts: Seq<u64>, x: int)
    requires
        nondecreasing(ts),
    ensures
        passed_in(ts, limiter_run(ts).1, ts.len() as int, x) <= 100,
    decreases ts.len(),
{
    if ts.len() > 0 {
        let n = ts.len() as int;
        let init = ts.drop_last();
        let t = ts.last();
        let prev = limiter_run(init);
        let ps = limiter_run(ts).1;
        lemma_run_len(ts);
        lemma_run_len(init);
        assert(nondecreasing(init));
        lemma_at_most_100_per_second(init, x);
        assert forall|j: int| 0 <= j < n - 1 implies init[j] == ts[j] && prev.1[j] == ps[j] by {}
        lemma_passed_in_agree(init, prev.1, ts, ps, n - 1, x);
        if ps[n - 1] && x <= t < x + 1000 {
            lemma_count_le_kept(ts, ps, n, x, t as int);
            lemma_run_state(ts);
            assert(in_window(prev.0, t).len() < 100);
        }
    }
}

} // verus!
