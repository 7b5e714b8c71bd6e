//! Runner registry: service discovery and round-robin job routing.
//! Agents register on connect; jobs go in turn to the runners with the needed label.
use vstd::prelude::*;

use crate::strmap::{key_index, lemma_insert_len, lemma_key_index, map_insert, map_remove, Entries, StrMap};
use crate::text::str_equal;
use vstd::arithmetic::div_mod::{
    lemma_fundamental_div_mod_converse, lemma_mod_pos_bound, lemma_mod_self_0, lemma_small_mod,
};

verus! {

/// A connected runner agent, with the channel `job_tx` that takes its jobs.
pub struct RunnerEntry<T> {
    pub agent_id: String,
    pub labels: Vec<String>,
    pub job_tx: T,
}

/// The registry of connected runners, keyed by agent id, with the round-robin
/// cursor that picks among the runners a job can go to.
pub struct RunnerRegistry<T> {
    runners: StrMap<RunnerEntry<T>>,
    next: usize,
}

/// The runner has the label, or no label is needed.
pub open spec fn runner_matches<T>(r: RunnerEntry<T>, label: Option<&str>) -> bool {
    match label {
        Some(l) => exists|i: int| 0 <= i < r.labels@.len() && (#[trigger] r.labels@[i])@ == l@,
        None => true,
    }
}

/// The positions of the runners among the first `m` that match the label, in order.
pub open spec fn candidates_upto<T>(e: Entries<RunnerEntry<T>>, label: Option<&str>, m: int) -> Seq<
    int,
>
    decreases m,
{
    if m <= 0 {
        Seq::empty()
    } else if runner_matches(e[m - 1].1, label) {
        candidates_upto(e, label, m - 1).push(m - 1)
    } else {
        candidates_upto(e, label, m - 1)
    }
}

/// The positions of the runners that match the label, in registration order.
pub open spec fn candidates<T>(e: Entries<RunnerEntry<T>>, label: Option<&str>) -> Seq<int> {
    candidates_upto(e, label, e.len() as int)
}

/// The turn after turn `p` among `k` runners: the next one, or the first again.
pub open spec fn next_turn(p: int, k: int) -> int {
    if p + 1 < k {
        p + 1
    } else {
        0
    }
}

/// The turn `j` jobs after turn `p` among `k` runners.
pub open spec fn turn_after(p: int, j: nat, k: int) -> int
    decreases j,
{
    if j == 0 {
        p
    } else {
        next_turn(turn_after(p, (j - 1) as nat, k), k)
    }
}

/// Runner `i` gets one of the `k` turns that follow turn `p` (`p` included).
pub open spec fn gets_a_turn(p: int, k: int, i: int) -> bool {
    exists|j: nat| j < k && #[trigger] turn_after(p, j, k) == i
}

proof fn lemma_turn_after_value(p: int, j: nat, k: int)
    requires
        0 <= p < k,
        j < k,
    ensures
        turn_after(p, j, k) == if p + j < k {
            p + j
        } else {
            p + j - k
        },
    decreases j,
{
    if j > 0 {
        lemma_turn_after_value(p, (j - 1) as nat, k);
    }
}

/// Law: round robin is fair. Among `k` qualifying runners, any `k` successive
/// jobs (with no runner joining or leaving) go to `k` different runners, so
/// each runner gets one of them; over `n` jobs each gets `n / k` or `n / k + 1`.
pub proof fn lemma_round_robin_fair(p: int, k: int)
    requires
        0 <= p < k,
    ensures
        forall|j1: nat, j2: nat|
            j1 < j2 < k ==> #[trigger] turn_after(p, j1, k) != #[trigger] turn_after(p, j2, k),
        forall|i: int| 0 <= i < k ==> #[trigger] gets_a_turn(p, k, i),
{
    assert forall|j1: nat, j2: nat| j1 < j2 < k implies #[trigger] turn_after(p, j1, k)
        != #[trigger] turn_after(p, j2, k) by {
        lemma_turn_after_value(p, j1, k);
        lemma_turn_after_value(p, j2, k);
    }
    assert forall|i: int| 0 <= i < k implies #[trigger] gets_a_turn(p, k, i) by {
        let j: nat = if i >= p {
            (i - p) as nat
        } else {
            (i + k - p) as nat
        };
        lemma_turn_after_value(p, j, k);
        assert(turn_after(p, j, k) == i);
    }
}

/// How many of the `n` turns that start at turn `p` (among `k`) fall to runner `i`.
pub open spec fn turns_of(p: int, n: nat, k: int, i: int) -> nat
    decreases n,
{
    if n == 0 {
        0
    } else {
        turns_of(p, (n - 1) as nat, k, i) + if turn_after(p, (n - 1) as nat, k) == i {
            1nat
        } else {
            0nat
        }
    }
}

/// The place of runner `x` in a round of `k` turns that starts at turn `p`.
pub open spec fn place_in_round(p: int, k: int, x: int) -> int {
    if x >= p {
        x - p
    } else {
        x - p + k
    }
}

/// After `n` turns from `p`, `q` rounds are complete, and in the round under
/// way the runners placed before the next turn have had one turn more.
proof fn lemma_turns_rounds(p: int, n: nat, k: int) -> (q: nat)
    requires
        0 <= p < k,
    ensures
        0 <= turn_after(p, n, k) < k,
        n == q * k + place_in_round(p, k, turn_after(p, n, k)),
        forall|i: int|
            0 <= i < k ==> #[trigger] turns_of(p, n, k, i) == q + if place_in_round(p, k, i)
                < place_in_round(p, k, turn_after(p, n, k)) {
                1nat
            } else {
                0nat
            },
    decreases n,
{
    if n == 0 {
        0
    } else {
        let q0 = lemma_turns_rounds(p, (n - 1) as nat, k);
        let t = turn_after(p, (n - 1) as nat, k);
        let t2 = turn_after(p, n, k);
        assert(t2 == next_turn(t, k));
        if place_in_round(p, k, t) + 1 < k {
            assert(place_in_round(p, k, t2) == place_in_round(p, k, t) + 1);
            assert forall|i: int| 0 <= i < k implies #[trigger] turns_of(p, n, k, i) == q0 + if place_in_round(p, k, i)
                < place_in_round(p, k, t2) {
                1nat
            } else {
                0nat
            } by {
                assert(turns_of(p, n, k, i) == turns_of(p, (n - 1) as nat, k, i) + if t == i {
                    1nat
                } else {
                    0nat
                });
            }
            q0
        } else {
            assert(t2 == p);
            assert((q0 + 1) * k == q0 * k + k) by (nonlinear_arith);
            assert forall|i: int| 0 <= i < k implies #[trigger] turns_of(p, n, k, i) == (q0 + 1) as nat
                + if place_in_round(p, k, i) < place_in_round(p, k, t2) {
                1nat
            } else {
                0nat
            } by {
                assert(turns_of(p, n, k, i) == turns_of(p, (n - 1) as nat, k, i) + if t == i {
                    1nat
                } else {
                    0nat
                });
            }
            (q0 + 1) as nat
        }
    }
}

/// Law: round robin shares the jobs evenly. Of `n` successive jobs among `k`
/// qualifying runners (with no runner joining or leaving), starting at any
/// turn, each runner gets `n / k` or `n / k + 1`.
pub proof fn lemma_round_robin_shares(p: int, n: nat, k: int, i: int)
    requires
        0 <= p < k,
        0 <= i < k,
    ensures
        (n as int) / k <= turns_of(p, n, k, i) <= (n as int) / k + 1,
{
    let q = lemma_turns_rounds(p, n, k);
    let r = place_in_round(p, k, turn_after(p, n, k));
    lemma_fundamental_div_mod_converse(n as int, k, q as int, r);
}

proof fn lemma_candidates_in_range<T>(e: Entries<RunnerEntry<T>>, label: Option<&str>, m: int)
    requires
        0 <= m,
    ensures
        forall|j: int|
            0 <= j < candidates_upto(e, label, m).len() ==> 0 <= #[trigger] candidates_upto(
                e,
                label,
                m,
            )[j] < m,
    decreases m,
{
    if m > 0 {
        lemma_candidates_in_range(e, label, m - 1);
        let p = candidates_upto(e, label, m - 1);
        let c = candidates_upto(e, label, m);
        assert forall|j: int| 0 <= j < c.len() implies 0 <= #[trigger] c[j] < m by {
            if j < p.len() {
                assert(c[j] == p[j]);
            }
        }
    }
}

/// Law: once a runner with label `l` is registered, a job that needs `l` has
/// a runner to go to (so `dispatch` does not come back empty).
pub proof fn lemma_registered_label_dispatchable<T>(
    e: Entries<RunnerEntry<T>>,
    id: Seq<char>,
    r: RunnerEntry<T>,
    l: &str,
)
    requires
        exists|i: int| 0 <= i < r.labels@.len() && (#[trigger] r.labels@[i])@ == l@,
    ensures
        exists|j: int|
            0 <= j < map_insert(e, id, r).len() && runner_matches(
                #[trigger] map_insert(e, id, r)[j].1,
                Some(l),
            ),
{
    lemma_insert_len(e, id, r);
    let m = map_insert(e, id, r);
    let j = key_index(m, id);
    lemma_key_index(m, id);
    assert(m[j].1 == r);
    assert(runner_matches(m[j].1, Some(l)));
}

fn has_label<T>(r: &RunnerEntry<T>, label: &str) -> (res: bool)
    ensures
        res == runner_matches(*r, Some(label)),
{
    let mut i: usize = 0;
    while i < r.labels.len()
        invariant
            i <= r.labels@.len(),
            forall|j: int| 0 <= j < i ==> (#[trigger] r.labels@[j])@ != label@,
        decreases r.labels@.len() - i,
    {
        if str_equal(r.labels[i].as_str(), label) {
            return true;
        }
        i += 1;
    }
    false
}

impl<T> RunnerRegistry<T> {
    /// The runners as entries keyed by agent id.
    pub closed spec fn runners(&self) -> Entries<RunnerEntry<T>> {
        self.runners@
    }

    /// The round-robin cursor: the next job among `k` qualifying runners
    /// goes to the one at turn `cursor() % k`.
    pub closed spec fn cursor(&self) -> usize {
        self.next
    }

    /// An empty registry.
    pub fn new() -> (res: Self)
        ensures
            res.runners() == Seq::<(Seq<char>, RunnerEntry<T>)>::empty(),
            res.cursor() == 0,
    {
        RunnerRegistry { runners: StrMap::new(), next: 0 }
    }

    /// Registers an agent with its job channel; an agent that registers again
    /// replaces its entry.
    pub fn register(&mut self, agent_id: String, labels: Vec<String>, job_tx: T)
        ensures
            final(self).runners() == map_insert(
                old(self).runners(),
                agent_id@,
                RunnerEntry { agent_id, labels, job_tx },
            ),
            final(self).cursor() == old(self).cursor(),
    {
        let key = agent_id.clone();
        self.runners.insert(key, RunnerEntry { agent_id, labels, job_tx });
    }

    /// Deregisters a disconnected agent.
    pub fn deregister(&mut self, agent_id: &str)
        ensures
            final(self).runners() == map_remove(old(self).runners(), agent_id@),
            final(self).cursor() == old(self).cursor(),
    {
        self.runners.remove(agent_id);
    }

    /// The runner that gets a job, round robin: among the registered runners
    /// that have the required label (all runners when no label is required),
    /// in registration order, the one whose turn it is; the turn then moves on
    /// to the next of them, wrapping to the first. `None` when no runner
    /// qualifies, and the turn stays.
    pub fn dispatch(&mut self, required_label: Option<&str>) -> (res: Option<&RunnerEntry<T>>)
        ensures
            final(self).runners() == old(self).runners(),
            ({
                let c = candidates(old(self).runners(), required_label);
                let k = c.len() as int;
                let p = (old(self).cursor() as int) % k;
                &&& k == 0 ==> res is None && final(self).cursor() == old(self).cursor()
                &&& k > 0 ==> {
                    &&& res matches Some(r) && *r == old(self).runners()[c[p]].1
                    &&& final(self).cursor() == p + 1
                    &&& (final(self).cursor() as int) % k == next_turn(p, k)
                }
            }),
    {
        let ghost e = self.runners@;
        let mut cands: Vec<usize> = Vec::new();
        let mut i: usize = 0;
        proof {
            lemma_candidates_in_range(e, required_label, e.len() as int);
        }
        while i < self.runners.len()
            invariant
                e == self.runners@,
                i <= e.len(),
                cands@.len() == candidates_upto(e, required_label, i as int).len(),
                forall|j: int|
                    0 <= j < cands@.len() ==> #[trigger] cands@[j] as int == candidates_upto(
                        e,
                        required_label,
                        i as int,
                    )[j],
                forall|j: int| 0 <= j < cands@.len() ==> #[trigger] cands@[j] < i,
            decreases e.len() - i,
        {
            let r = self.runners.value_at(i);
            let ok = match required_label {
                Some(l) => has_label(r, l),
                None => true,
            };
            if ok {
                cands.push(i);
            }
            i += 1;
        }
        let k = cands.len();
        if k == 0 {
            return None;
        }
        let p = self.next % k;
        proof {
            lemma_mod_pos_bound(self.next as int, k as int);
            if p + 1 < k {
                lemma_small_mod((p + 1) as nat, k as nat);
            } else {
                lemma_mod_self_0(k as int);
            }
        }
        self.next = p + 1;
        let idx = cands[p];
        Some(self.runners.value_at(idx))
    }

    /// The number of registered runners.
    pub fn count(&self) -> (res: usize)
        ensures
            res == self.runners().len(),
    {
        self.runners.len()
    }
}

} // verus!
