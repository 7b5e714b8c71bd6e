//! Scheduling: the dependency graph of a pipeline and its execution waves.
//!
//! A stage goes in the earliest wave after the waves of every stage it needs, so
//! all stages of a wave can run together once the earlier waves are done.
use std::marker::PhantomData;
use vstd::prelude::*;

use crate::graph::{
    acyclic, dag_add_edge, dag_add_node, dag_edges, dag_new, dag_nodes, dag_toposort,
    is_topo_order, on_cycle, toposort_outcome,
};
use crate::pipeline::model::{Pipeline, Stage};
use crate::strmap::{has_key, is_first_key, key_index, keys_distinct, lemma_key_index, Entries};
use crate::text::push_str;

verus! {

/// The names a stage needs, in the order they are written.
pub open spec fn needs_of(st: Stage) -> Seq<Seq<char>> {
    match st.needs {
        Some(v) => v@.map_values(|s: String| s@),
        None => Seq::empty(),
    }
}

/// The edges into stage `i`: one from each stage it needs.
pub open spec fn dep_edges(e: Entries<Stage>, i: int) -> Seq<(usize, usize)> {
    needs_of(e[i].1).map_values(|d: Seq<char>| (key_index(e, d) as usize, i as usize))
}

/// The edges into the first `m` stages, stage by stage.
pub open spec fn edges_upto(e: Entries<Stage>, m: int) -> Seq<(usize, usize)>
    decreases m,
{
    if m <= 0 {
        Seq::empty()
    } else {
        edges_upto(e, m - 1) + dep_edges(e, m - 1)
    }
}

/// The dependency graph's edges: `(d, i)` where stage `i` needs stage `d`.
pub open spec fn stage_edges(e: Entries<Stage>) -> Seq<(usize, usize)> {
    edges_upto(e, e.len() as int)
}

/// Every name that a stage needs is the name of a stage.
pub open spec fn deps_known(e: Entries<Stage>) -> bool {
    forall|i: int, j: int|
        0 <= i < e.len() && 0 <= j < needs_of(e[i].1).len() ==> has_key(
            e,
            #[trigger] needs_of(e[i].1)[j],
        )
}

/// Need `j` of stage `i` names no stage, and it is the first such need, stage
/// by stage and need by need.
pub open spec fn first_unknown(e: Entries<Stage>, i: int, j: int) -> bool {
    &&& 0 <= i < e.len()
    &&& 0 <= j < needs_of(e[i].1).len()
    &&& !has_key(e, needs_of(e[i].1)[j])
    &&& forall|a: int, b: int|
        0 <= a < e.len() && 0 <= b < needs_of(e[a].1).len() && (a < i || (a == i && b < j))
            ==> has_key(e, #[trigger] needs_of(e[a].1)[b])
}

/// The error for a stage that needs an unknown stage.
pub open spec fn unknown_dep_message(stage: Seq<char>, dep: Seq<char>) -> Seq<char> {
    "Stage '"@ + stage + "' depends on unknown stage '"@ + dep + "'"@
}

/// The error for a dependency cycle through `stage`.
pub open spec fn cycle_message(stage: Seq<char>) -> Seq<char> {
    "Circular dependency detected at stage '"@ + stage + "'"@
}

/// The wave after the latest wave of the given needs, or wave 0 for no needs.
pub open spec fn dep_wave(e: Entries<Stage>, w: Seq<nat>, deps: Seq<Seq<char>>) -> nat
    decreases deps.len(),
{
    if deps.len() == 0 {
        0
    } else {
        let a = dep_wave(e, w, deps.drop_last());
        let b = w[key_index(e, deps.last())] + 1;
        if a >= b {
            a
        } else {
            b
        }
    }
}

/// `w` gives each stage the earliest wave after the waves of the stages it needs.
pub open spec fn is_wave_assignment(e: Entries<Stage>, w: Seq<nat>) -> bool {
    &&& w.len() == e.len()
    &&& forall|i: int| 0 <= i < e.len() ==> #[trigger] w[i] == dep_wave(e, w, needs_of(e[i].1))
}

/// The largest wave number, 0 for no stages.
pub open spec fn max_wave(w: Seq<nat>) -> nat
    decreases w.len(),
{
    if w.len() == 0 {
        0
    } else {
        let a = max_wave(w.drop_last());
        if a >= w.last() {
            a
        } else {
            w.last()
        }
    }
}

/// The names of the first `m` stages that are in wave `k`, in stage order.
pub open spec fn wave_names(e: Entries<Stage>, w: Seq<nat>, k: nat, m: int) -> Seq<Seq<char>>
    decreases m,
{
    if m <= 0 {
        Seq::empty()
    } else {
        let prev = wave_names(e, w, k, m - 1);
        if w[m - 1] == k {
            prev.push(e[m - 1].0)
        } else {
            prev
        }
    }
}

/// The waves `0..=max_wave(w)`, each listing its stages in stage order.
pub open spec fn group_waves(e: Entries<Stage>, w: Seq<nat>) -> Seq<Seq<Seq<char>>> {
    Seq::new(max_wave(w) + 1, |k: int| wave_names(e, w, k as nat, e.len() as int))
}

/// The error for a pipeline whose waves cannot be built: the first unknown
/// need, or else the stage on a cycle that the topological sort reports.
pub open spec fn waves_error(e: Entries<Stage>) -> Seq<char> {
    if !deps_known(e) {
        let (i, j) = choose|i: int, j: int| first_unknown(e, i, j);
        unknown_dep_message(e[i].0, needs_of(e[i].1)[j])
    } else {
        cycle_message(e[toposort_outcome(e.len(), stage_edges(e))->Err_0 as int].0)
    }
}

/// There is only one first unknown need.
pub proof fn lemma_first_unknown_unique(e: Entries<Stage>, i: int, j: int)
    requires
        first_unknown(e, i, j),
    ensures
        (choose|a: int, b: int| first_unknown(e, a, b)) == (i, j),
{
    let (a, b) = choose|a: int, b: int| first_unknown(e, a, b);
    assert(first_unknown(e, a, b));
    if a < i || (a == i && b < j) {
        assert(has_key(e, needs_of(e[a].1)[b]));
    }
    if i < a || (i == a && j < b) {
        assert(has_key(e, needs_of(e[i].1)[j]));
    }
}

/// The waves as plain values.
pub open spec fn waves_view(ws: Seq<Vec<String>>) -> Seq<Seq<Seq<char>>> {
    ws.map_values(|v: Vec<String>| v@.map_values(|s: String| s@))
}

/// A wave sequence as natural numbers.
pub open spec fn wnat(w: Seq<usize>) -> Seq<nat> {
    w.map_values(|x: usize| x as nat)
}

/// The graph has room for the stages and their edges (`petgraph` indexes them by `u32`).
pub open spec fn fits_graph(e: Entries<Stage>) -> bool {
    &&& e.len() < u32::MAX
    &&& stage_edges(e).len() < u32::MAX
}

pub proof fn lemma_edges_prefix(e: Entries<Stage>, a: int, b: int)
    requires
        0 <= a <= b,
    ensures
        edges_upto(e, a).len() <= edges_upto(e, b).len(),
        forall|x: int|
            0 <= x < edges_upto(e, a).len() ==> #[trigger] edges_upto(e, b)[x] == edges_upto(
                e,
                a,
            )[x],
    decreases b - a,
{
    if a < b {
        lemma_edges_prefix(e, a, b - 1);
    }
}

/// The edge from need `j` of stage `i` is an edge of the graph.
pub proof fn lemma_dep_edge(e: Entries<Stage>, i: int, j: int) -> (k: int)
    requires
        0 <= i < e.len(),
        0 <= j < needs_of(e[i].1).len(),
    ensures
        0 <= k < stage_edges(e).len(),
        stage_edges(e)[k] == (key_index(e, needs_of(e[i].1)[j]) as usize, i as usize),
{
    let k = edges_upto(e, i).len() + j;
    assert(edges_upto(e, i + 1)[k] == dep_edges(e, i)[j]);
    lemma_edges_prefix(e, i + 1, e.len() as int);
    k
}

/// The numbers `0..n` as a set of `usize` has `n` elements.
pub proof fn lemma_usize_range(n: nat)
    requires
        n <= usize::MAX + 1,
    ensures
        Set::new(|u: usize| (u as int) < n).finite(),
        Set::new(|u: usize| (u as int) < n).len() == n,
    decreases n,
{
    if n == 0 {
        assert(Set::new(|u: usize| (u as int) < n) =~= Set::<usize>::empty());
    } else {
        lemma_usize_range((n - 1) as nat);
        let top = (n - 1) as usize;
        assert(Set::new(|u: usize| (u as int) < n - 1).insert(top) =~= Set::new(
            |u: usize| (u as int) < n,
        ));
    }
}

/// A topological order lists every node.
pub proof fn lemma_order_covers(order: Seq<usize>, n: nat, edges: Seq<(usize, usize)>, u: usize)
    requires
        is_topo_order(order, n, edges),
        (u as int) < n,
        n <= usize::MAX,
    ensures
        exists|x: int| 0 <= x < n && order[x] == u,
{
    let s = order.to_set();
    let r = Set::new(|v: usize| (v as int) < n);
    order.unique_seq_to_set();
    lemma_usize_range(n);
    assert(s.subset_of(r)) by {
        assert forall|v: usize| s.contains(v) implies r.contains(v) by {
            let x = choose|x: int| 0 <= x < order.len() && order[x] == v;
            assert(order[x] < n);
        }
    }
    vstd::set_lib::lemma_subset_equality(s, r);
    assert(r.contains(u));
    assert(s.contains(u));
}

/// A stage comes after each stage it needs in a topological order.
pub proof fn lemma_need_before(
    e: Entries<Stage>,
    order: Seq<usize>,
    t: int,
    j: int,
) -> (x: int)
    requires
        is_topo_order(order, e.len(), stage_edges(e)),
        deps_known(e),
        e.len() <= usize::MAX,
        0 <= t < e.len(),
        0 <= j < needs_of(e[order[t] as int].1).len(),
    ensures
        0 <= x < t,
        order[x] as int == key_index(e, needs_of(e[order[t] as int].1)[j]),
        order[x] != order[t],
{
    let i = order[t] as int;
    let d = needs_of(e[i].1)[j];
    assert(has_key(e, d));
    lemma_key_index(e, d);
    let u = key_index(e, d) as usize;
    let k = lemma_dep_edge(e, i, j);
    lemma_order_covers(order, e.len(), stage_edges(e), u);
    let x = choose|x: int| 0 <= x < e.len() && order[x] == u;
    assert(stage_edges(e)[k] == (u, i as usize));
    assert(x < t);
    assert(order[x] != order[t]) by {
        assert(order.no_duplicates());
    }
    x
}

/// `dep_wave` reads `w` only at the stages that are needed.
pub proof fn lemma_dep_wave_agree(
    e: Entries<Stage>,
    w1: Seq<nat>,
    w2: Seq<nat>,
    deps: Seq<Seq<char>>,
)
    requires
        forall|j: int|
            0 <= j < deps.len() ==> w1[key_index(e, #[trigger] deps[j])] == w2[key_index(
                e,
                deps[j],
            )],
    ensures
        dep_wave(e, w1, deps) == dep_wave(e, w2, deps),
    decreases deps.len(),
{
    if deps.len() > 0 {
        let d = deps.drop_last();
        assert forall|j: int| 0 <= j < d.len() implies w1[key_index(e, #[trigger] d[j])]
            == w2[key_index(e, d[j])] by {
            assert(d[j] == deps[j]);
        }
        lemma_dep_wave_agree(e, w1, w2, d);
        assert(deps.last() == deps[deps.len() - 1]);
    }
}

/// Builds the dependency graph of `pipeline`: node `i` is stage `i`, and an edge
/// `d -> i` for every stage `d` that stage `i` needs. A need that names no stage
/// is refused with an error naming the first one.
fn dependency_graph(pipeline: &Pipeline) -> (res: Result<petgraph::graph::DiGraph<usize, ()>, String>)
    requires
        fits_graph(pipeline.stages@),
    ensures
        match res {
            Ok(g) => {
                &&& deps_known(pipeline.stages@)
                &&& dag_nodes(g).len() == pipeline.stages@.len()
                &&& dag_edges(g) == stage_edges(pipeline.stages@)
            },
            Err(m) => exists|i: int, j: int|
                first_unknown(pipeline.stages@, i, j) && m@ == unknown_dep_message(
                    pipeline.stages@[i].0,
                    needs_of(pipeline.stages@[i].1)[j],
                ),
        },
{
    let ghost e = pipeline.stages@;
    let n = pipeline.stages.len();
    let mut g = dag_new();
    let mut i: usize = 0;
    while i < n
        invariant
            n == e.len() < u32::MAX,
            i <= n,
            dag_nodes(g).len() == i,
            dag_edges(g) == Seq::<(usize, usize)>::empty(),
        decreases n - i,
    {
        dag_add_node(&mut g, i);
        i += 1;
    }
    assert(edges_upto(e, 0) =~= Seq::<(usize, usize)>::empty());
    let mut i: usize = 0;
    while i < n
        invariant
            e == pipeline.stages@,
            fits_graph(e),
            n == e.len(),
            i <= n,
            dag_nodes(g).len() == n,
            dag_edges(g) == edges_upto(e, i as int),
            forall|a: int, b: int|
                0 <= a < i && 0 <= b < needs_of(e[a].1).len() ==> has_key(
                    e,
                    #[trigger] needs_of(e[a].1)[b],
                ),
        decreases n - i,
    {
        let stage = pipeline.stages.value_at(i);
        proof {
            lemma_edges_prefix(e, i + 1, n as int);
        }
        match &stage.needs {
            Some(needs) => {
                let mut j: usize = 0;
                while j < needs.len()
                    invariant
                        e == pipeline.stages@,
                        fits_graph(e),
                        n == e.len(),
                        i < n,
                        *stage == e[i as int].1,
                        stage.needs == Some(*needs),
                        j <= needs.len(),
                        dag_nodes(g).len() == n,
                        edges_upto(e, i + 1).len() <= stage_edges(e).len(),
                        dag_edges(g) == edges_upto(e, i as int) + dep_edges(e, i as int).take(
                            j as int,
                        ),
                        forall|a: int, b: int|
                            0 <= a < i && 0 <= b < needs_of(e[a].1).len() ==> has_key(
                                e,
                                #[trigger] needs_of(e[a].1)[b],
                            ),
                        forall|b: int|
                            0 <= b < j ==> has_key(e, #[trigger] needs_of(e[i as int].1)[b]),
                    decreases needs.len() - j,
                {
                    assert(needs_of(e[i as int].1)[j as int] == needs@[j as int]@);
                    match pipeline.stages.find(needs[j].as_str()) {
                        None => {
                            let mut m = String::new();
                            push_str(&mut m, "Stage '");
                            push_str(&mut m, pipeline.stages.key_at(i).as_str());
                            push_str(&mut m, "' depends on unknown stage '");
                            push_str(&mut m, needs[j].as_str());
                            push_str(&mut m, "'");
                            proof {
                                assert(first_unknown(e, i as int, j as int));
                                assert(m@ =~= unknown_dep_message(
                                    e[i as int].0,
                                    needs_of(e[i as int].1)[j as int],
                                ));
                            }
                            return Err(m);
                        },
                        Some(k) => {
                            proof {
                                assert(e[k as int].0 == needs@[j as int]@);
                                assert(dep_edges(e, i as int)[j as int] == (k, i));
                                assert(edges_upto(e, i + 1) == edges_upto(e, i as int) + dep_edges(
                                    e,
                                    i as int,
                                ));
                            }
                            dag_add_edge(&mut g, k, i);
                            proof {
                                assert(dag_edges(g) =~= edges_upto(e, i as int) + dep_edges(
                                    e,
                                    i as int,
                                ).take(j + 1));
                            }
                        },
                    }
                    j += 1;
                }
                proof {
                    assert(dep_edges(e, i as int).take(j as int) =~= dep_edges(e, i as int));
                }
            },
            None => {
                proof {
                    assert(dep_edges(e, i as int) =~= Seq::<(usize, usize)>::empty());
                    assert(dag_edges(g) =~= edges_upto(e, i + 1));
                }
            },
        }
        i += 1;
    }
    Ok(g)
}

/// The waves of `pipeline` from what the topological sort of its dependency
/// graph returned: for a cycle through stage `c`, an error naming stage `c`;
/// for a topological order, the waves grouped by the wave assignment.
pub fn waves_from_toposort(pipeline: &Pipeline, sorted: Result<Vec<usize>, usize>) -> (res: Result<
    Vec<Vec<String>>,
    String,
>)
    requires
        deps_known(pipeline.stages@),
        pipeline.stages@.len() < u32::MAX,
        match sorted {
            Ok(order) => is_topo_order(order@, pipeline.stages@.len(), stage_edges(pipeline.stages@)),
            Err(c) => c < pipeline.stages@.len(),
        },
    ensures
        match sorted {
            Ok(order) => match res {
                Ok(waves) => exists|w: Seq<nat>|
                    is_wave_assignment(pipeline.stages@, w) && waves_view(waves@) == group_waves(
                        pipeline.stages@,
                        w,
                    ),
                Err(_) => false,
            },
            Err(c) => match res {
                Ok(_) => false,
                Err(m) => m@ == cycle_message(pipeline.stages@[c as int].0),
            },
        },
{
    let ghost e = pipeline.stages@;
    let n = pipeline.stages.len();
    let order = match sorted {
        Err(c) => {
            let mut m = String::new();
            push_str(&mut m, "Circular dependency detected at stage '");
            push_str(&mut m, pipeline.stages.key_at(c).as_str());
            push_str(&mut m, "'");
            assert(m@ =~= cycle_message(e[c as int].0));
            return Err(m);
        },
        Ok(order) => order,
    };
    // The wave of each stage, set in topological order.
    let mut w: Vec<usize> = Vec::new();
    let mut i: usize = 0;
    while i < n
        invariant
            i <= n,
            w@.len() == i,
            forall|v: int| 0 <= v < i ==> w@[v] == 0,
        decreases n - i,
    {
        w.push(0);
        i += 1;
    }
    let mut t: usize = 0;
    while t < n
        invariant
            e == pipeline.stages@,
            n == e.len() < u32::MAX,
            deps_known(e),
            is_topo_order(order@, n as nat, stage_edges(e)),
            t <= n,
            w@.len() == n,
            forall|v: int| 0 <= v < n ==> #[trigger] w@[v] <= t,
            forall|s: int|
                0 <= s < t ==> #[trigger] wnat(w@)[order@[s] as int] == dep_wave(
                    e,
                    wnat(w@),
                    needs_of(e[order@[s] as int].1),
                ),
        decreases n - t,
    {
        let v = order[t];
        assert(order@[t as int] < n);
        let stage = pipeline.stages.value_at(v);
        let ghost deps = needs_of(e[v as int].1);
        let mut cur: usize = 0;
        proof {
            assert(deps.take(0) =~= Seq::<Seq<char>>::empty());
        }
        match &stage.needs {
            Some(needs) => {
                let mut j: usize = 0;
                while j < needs.len()
                    invariant
                        e == pipeline.stages@,
                        n == e.len() < u32::MAX,
                        deps_known(e),
                        is_topo_order(order@, n as nat, stage_edges(e)),
                        t < n,
                        v == order@[t as int],
                        v < n,
                        *stage == e[v as int].1,
                        stage.needs == Some(*needs),
                        deps == needs_of(e[v as int].1),
                        j <= needs.len(),
                        w@.len() == n,
                        forall|x: int| 0 <= x < n ==> #[trigger] w@[x] <= t,
                        cur <= t + 1,
                        cur == dep_wave(e, wnat(w@), deps.take(j as int)),
                    decreases needs.len() - j,
                {
                    assert(deps[j as int] == needs@[j as int]@);
                    let found = pipeline.stages.find(needs[j].as_str());
                    proof {
                        assert(has_key(e, deps[j as int]));
                    }
                    let u = match found {
                        Some(u) => u,
                        None => {
                            proof {
                                lemma_key_index(e, deps[j as int]);
                            }
                            0
                        },
                    };
                    assert(u == key_index(e, deps[j as int]));
                    let cand = w[u] + 1;
                    if cand > cur {
                        cur = cand;
                    }
                    proof {
                        let tk = deps.take(j + 1);
                        assert(tk.drop_last() =~= deps.take(j as int));
                        assert(tk.last() == deps[j as int]);
                    }
                    j += 1;
                }
                proof {
                    assert(deps.take(j as int) =~= deps);
                }
            },
            None => {
                proof {
                    assert(deps =~= Seq::<Seq<char>>::empty());
                }
            },
        }
        let ghost old_w = wnat(w@);
        w.set(v, cur);
        proof {
            let nw = wnat(w@);
            assert(nw =~= old_w.update(v as int, cur as nat));
            // The needs of every stage placed so far, and of `v`, were placed
            // before `v`, so their waves did not change.
            assert forall|s: int| 0 <= s <= t implies #[trigger] nw[order@[s] as int] == dep_wave(
                e,
                nw,
                needs_of(e[order@[s] as int].1),
            ) by {
                let vs = order@[s] as int;
                let ds = needs_of(e[vs].1);
                assert forall|j: int| 0 <= j < ds.len() implies nw[key_index(e, #[trigger] ds[j])]
                    == old_w[key_index(e, ds[j])] by {
                    let x = lemma_need_before(e, order@, s, j);
                    assert(order@[x] != order@[t as int]) by {
                        assert(order@.no_duplicates());
                    }
                }
                lemma_dep_wave_agree(e, nw, old_w, ds);
                if s < t {
                    assert(order@[s] != order@[t as int]) by {
                        assert(order@.no_duplicates());
                    }
                }
            }
        }
        t += 1;
    }
    let ghost ww = wnat(w@);
    proof {
        assert forall|i: int| 0 <= i < e.len() implies #[trigger] ww[i] == dep_wave(
            e,
            ww,
            needs_of(e[i].1),
        ) by {
            lemma_order_covers(order@, n as nat, stage_edges(e), i as usize);
            let x = choose|x: int| 0 <= x < n && order@[x] == i as usize;
            assert(ww[order@[x] as int] == dep_wave(e, ww, needs_of(e[order@[x] as int].1)));
        }
        assert(is_wave_assignment(e, ww));
    }
    // The number of waves.
    let mut top: usize = 0;
    let mut i: usize = 0;
    while i < n
        invariant
            n == e.len() < u32::MAX,
            w@.len() == n,
            ww == wnat(w@),
            i <= n,
            forall|v: int| 0 <= v < n ==> #[trigger] w@[v] <= n,
            top <= n,
            top == max_wave(ww.take(i as int)),
        decreases n - i,
    {
        proof {
            let tk = ww.take(i + 1);
            assert(tk.drop_last() =~= ww.take(i as int));
            assert(tk.last() == ww[i as int]);
        }
        if w[i] > top {
            top = w[i];
        }
        i += 1;
    }
    proof {
        assert(ww.take(n as int) =~= ww);
    }
    let mut waves: Vec<Vec<String>> = Vec::new();
    let mut k: usize = 0;
    while k <= top
        invariant
            e == pipeline.stages@,
            n == e.len() < u32::MAX,
            w@.len() == n,
            ww == wnat(w@),
            top == max_wave(ww),
            top <= n,
            k <= top + 1,
            waves_view(waves@) == Seq::new(
                k as nat,
                |kk: int| wave_names(e, ww, kk as nat, n as int),
            ),
        decreases top + 1 - k,
    {
        let mut names: Vec<String> = Vec::new();
        let mut i: usize = 0;
        while i < n
            invariant
                e == pipeline.stages@,
                n == e.len(),
                w@.len() == n,
                ww == wnat(w@),
                i <= n,
                names@.map_values(|s: String| s@) == wave_names(e, ww, k as nat, i as int),
            decreases n - i,
        {
            if w[i] == k {
                let name = pipeline.stages.key_at(i).clone();
                names.push(name);
                proof {
                    assert(names@.map_values(|s: String| s@) =~= wave_names(
                        e,
                        ww,
                        k as nat,
                        i as int,
                    ).push(e[i as int].0));
                }
            }
            i += 1;
        }
        let ghost before = waves@;
        waves.push(names);
        proof {
            assert(waves_view(waves@) =~= Seq::new(
                (k + 1) as nat,
                |kk: int| wave_names(e, ww, kk as nat, n as int),
            )) by {
                assert(waves@ == before.push(names));
                assert(waves_view(before).len() == k);
                assert(before.len() == k);
                assert forall|kk: int| 0 <= kk < k implies waves_view(waves@)[kk] == wave_names(
                    e,
                    ww,
                    kk as nat,
                    n as int,
                ) by {
                    assert(waves@[kk] == before[kk]);
                    assert(waves_view(before)[kk] == wave_names(e, ww, kk as nat, n as int));
                }
            }
        }
        k += 1;
    }
    proof {
        assert(waves_view(waves@) =~= group_waves(e, ww));
    }
    Ok(waves)
}

/// Builds the waves of stages that can run in parallel. Each wave contains the
/// stages whose needs are all in earlier waves, each stage in the earliest such
/// wave. A need naming no stage, or a dependency cycle, is an error.
pub fn build_execution_waves(pipeline: &Pipeline) -> (res: Result<Vec<Vec<String>>, String>)
    requires
        fits_graph(pipeline.stages@),
    ensures
        res is Ok <==> (deps_known(pipeline.stages@) && acyclic(
            pipeline.stages@.len(),
            stage_edges(pipeline.stages@),
        )),
        res matches Err(m) ==> m@ == waves_error(pipeline.stages@),
        res matches Err(m) ==> (deps_known(pipeline.stages@) ==> exists|c: int|
            0 <= c < pipeline.stages@.len() && on_cycle(stage_edges(pipeline.stages@), c) && m@
                == cycle_message(pipeline.stages@[c].0)),
        res matches Ok(waves) ==> exists|w: Seq<nat>|
            is_wave_assignment(pipeline.stages@, w) && waves_view(waves@) == group_waves(
                pipeline.stages@,
                w,
            ),
        res matches Ok(waves) ==> waves_view(waves@) == scheduled_waves(pipeline.stages@),
        keys_distinct(pipeline.stages@),
{
    let n = pipeline.stages.len();
    let ghost e = pipeline.stages@;
    let g = match dependency_graph(pipeline) {
        Ok(g) => g,
        Err(m) => {
            proof {
                let (i, j) = choose|i: int, j: int|
                    first_unknown(e, i, j) && m@ == unknown_dep_message(
                        e[i].0,
                        needs_of(e[i].1)[j],
                    );
                lemma_first_unknown_unique(e, i, j);
                assert(!deps_known(e)) by {
                    assert(!has_key(e, needs_of(e[i].1)[j]));
                }
            }
            return Err(m);
        },
    };
    let sorted = dag_toposort(&g);
    proof {
        if sorted is Err {
            let c = sorted->Err_0;
            assert(on_cycle(stage_edges(e), c as int));
            assert(waves_error(e) == cycle_message(e[c as int].0));
        }
        if sorted is Ok {
            assert(is_topo_order(sorted->Ok_0@, e.len(), stage_edges(e)));
            assert(acyclic(e.len(), stage_edges(e)));
        }
    }
    let res = waves_from_toposort(pipeline, sorted);
    proof {
        if res is Ok {
            let w = choose|w: Seq<nat>|
                is_wave_assignment(e, w) && waves_view(res->Ok_0@) == group_waves(e, w);
            lemma_waves_determined(e, w);
        }
    }
    res
}

/// A need's wave is before the wave of the stage that needs it.
pub proof fn lemma_dep_wave_after(e: Entries<Stage>, w: Seq<nat>, deps: Seq<Seq<char>>, j: int)
    requires
        0 <= j < deps.len(),
    ensures
        w[key_index(e, deps[j])] < dep_wave(e, w, deps),
    decreases deps.len(),
{
    if j < deps.len() - 1 {
        lemma_dep_wave_after(e, w, deps.drop_last(), j);
        assert(deps.drop_last()[j] == deps[j]);
    }
}

/// Law: in a wave assignment every stage comes in a later wave than each stage it
/// needs, so when a wave starts, all the needs of its stages are done.
pub proof fn lemma_waves_respect_needs(e: Entries<Stage>, w: Seq<nat>, i: int, j: int)
    requires
        is_wave_assignment(e, w),
        0 <= i < e.len(),
        0 <= j < needs_of(e[i].1).len(),
    ensures
        w[key_index(e, needs_of(e[i].1)[j])] < w[i],
{
    lemma_dep_wave_after(e, w, needs_of(e[i].1), j);
}

/// Law: a stage that needs nothing is in the first wave.
pub proof fn lemma_no_needs_first_wave(e: Entries<Stage>, w: Seq<nat>, i: int)
    requires
        is_wave_assignment(e, w),
        0 <= i < e.len(),
        needs_of(e[i].1).len() == 0,
    ensures
        w[i] == 0,
{
}

/// Two wave assignments agree on the first `t` stages of a topological order.
pub proof fn lemma_unique_prefix(
    e: Entries<Stage>,
    w1: Seq<nat>,
    w2: Seq<nat>,
    order: Seq<usize>,
    t: int,
)
    requires
        e.len() <= usize::MAX,
        deps_known(e),
        is_topo_order(order, e.len(), stage_edges(e)),
        is_wave_assignment(e, w1),
        is_wave_assignment(e, w2),
        0 <= t <= e.len(),
    ensures
        forall|s: int| 0 <= s < t ==> w1[#[trigger] order[s] as int] == w2[order[s] as int],
    decreases t,
{
    if t > 0 {
        lemma_unique_prefix(e, w1, w2, order, t - 1);
        let v = order[t - 1] as int;
        let ds = needs_of(e[v].1);
        assert forall|j: int| 0 <= j < ds.len() implies w1[key_index(e, #[trigger] ds[j])]
            == w2[key_index(e, ds[j])] by {
            let x = lemma_need_before(e, order, t - 1, j);
            assert(w1[order[x] as int] == w2[order[x] as int]);
        }
        lemma_dep_wave_agree(e, w1, w2, ds);
        assert(w1[v] == w2[v]);
    }
}

/// Law: an acyclic pipeline has one wave assignment only, so the waves that
/// `build_execution_waves` returns are determined by the pipeline alone.
pub proof fn lemma_wave_assignment_unique(e: Entries<Stage>, w1: Seq<nat>, w2: Seq<nat>)
    requires
        e.len() <= usize::MAX,
        deps_known(e),
        acyclic(e.len(), stage_edges(e)),
        is_wave_assignment(e, w1),
        is_wave_assignment(e, w2),
    ensures
        w1 == w2,
{
    let order = choose|order: Seq<usize>| is_topo_order(order, e.len(), stage_edges(e));
    let n = e.len();
    lemma_unique_prefix(e, w1, w2, order, n as int);
    assert forall|i: int| 0 <= i < n implies w1[i] == w2[i] by {
        lemma_order_covers(order, n, stage_edges(e), i as usize);
        let x = choose|x: int| 0 <= x < n && order[x] == i as usize;
        assert(w1[order[x] as int] == w2[order[x] as int]);
    }
    assert(w1 =~= w2);
}

/// The execution waves of a pipeline whose needs name stages and form no
/// cycle: its stages grouped by their wave assignment (there is just one).
pub open spec fn scheduled_waves(e: Entries<Stage>) -> Seq<Seq<Seq<char>>> {
    group_waves(e, choose|w: Seq<nat>| is_wave_assignment(e, w))
}

/// Law: the waves are determined by the pipeline. Any wave assignment of an
/// acyclic pipeline with known needs groups its stages into `scheduled_waves`,
/// so `TypedPipeline::schedule` and `build_execution_waves` give the same waves.
pub proof fn lemma_waves_determined(e: Entries<Stage>, w: Seq<nat>)
    requires
        e.len() <= usize::MAX,
        deps_known(e),
        acyclic(e.len(), stage_edges(e)),
        is_wave_assignment(e, w),
    ensures
        group_waves(e, w) == scheduled_waves(e),
{
    let w2 = choose|w2: Seq<nat>| is_wave_assignment(e, w2);
    lemma_wave_assignment_unique(e, w, w2);
}

/// The first `m` stages of wave `k`: stage `i < m` is listed iff it is in wave `k`.
pub proof fn lemma_wave_names_member(e: Entries<Stage>, w: Seq<nat>, k: nat, m: int, i: int)
    requires
        0 <= i < m <= e.len(),
        w.len() == e.len(),
        w[i] == k,
    ensures
        wave_names(e, w, k, m).contains(e[i].0),
    decreases m,
{
    if i < m - 1 {
        lemma_wave_names_member(e, w, k, m - 1, i);
        let prev = wave_names(e, w, k, m - 1);
        let x = choose|x: int| 0 <= x < prev.len() && prev[x] == e[i].0;
        if w[m - 1] == k {
            assert(prev.push(e[m - 1].0)[x] == e[i].0);
        }
    } else {
        let prev = wave_names(e, w, k, m - 1);
        assert(prev.push(e[m - 1].0)[prev.len() as int] == e[i].0);
    }
}

/// Every name in the first `m` stages of wave `k` is the name of a stage in wave `k`.
pub proof fn lemma_wave_names_only(e: Entries<Stage>, w: Seq<nat>, k: nat, m: int, x: int)
    requires
        0 <= m <= e.len(),
        w.len() == e.len(),
        0 <= x < wave_names(e, w, k, m).len(),
    ensures
        exists|i: int| 0 <= i < m && w[i] == k && e[i].0 == wave_names(e, w, k, m)[x],
    decreases m,
{
    let prev = wave_names(e, w, k, m - 1);
    if x < prev.len() {
        lemma_wave_names_only(e, w, k, m - 1, x);
        let i = choose|i: int| 0 <= i < m - 1 && w[i] == k && e[i].0 == prev[x];
        if w[m - 1] == k {
            assert(prev.push(e[m - 1].0)[x] == prev[x]);
        }
        assert(w[i] == k && e[i].0 == wave_names(e, w, k, m)[x]);
    } else {
        assert(w[m - 1] == k);
        assert(wave_names(e, w, k, m)[x] == e[m - 1].0);
    }
}

/// `max_wave` bounds every wave number.
pub proof fn lemma_max_wave(w: Seq<nat>, i: int)
    requires
        0 <= i < w.len(),
    ensures
        w[i] <= max_wave(w),
    decreases w.len(),
{
    if i < w.len() - 1 {
        lemma_max_wave(w.drop_last(), i);
        assert(w.drop_last()[i] == w[i]);
    }
}

/// Law: the grouped waves list each stage in its own wave.
pub proof fn lemma_group_waves_member(e: Entries<Stage>, w: Seq<nat>, i: int)
    requires
        w.len() == e.len(),
        0 <= i < e.len(),
    ensures
        w[i] < group_waves(e, w).len(),
        group_waves(e, w)[w[i] as int].contains(e[i].0),
{
    lemma_max_wave(w, i);
    lemma_wave_names_member(e, w, w[i], e.len() as int, i);
    assert(group_waves(e, w)[w[i] as int] == wave_names(e, w, w[i], e.len() as int));
}

/// Law: each grouped wave lists only stages of that wave.
pub proof fn lemma_group_waves_only(e: Entries<Stage>, w: Seq<nat>, k: int, x: int)
    requires
        w.len() == e.len(),
        0 <= k < group_waves(e, w).len(),
        0 <= x < group_waves(e, w)[k].len(),
    ensures
        exists|i: int| 0 <= i < e.len() && w[i] == k && e[i].0 == group_waves(e, w)[k][x],
{
    assert(group_waves(e, w)[k] == wave_names(e, w, k as nat, e.len() as int));
    lemma_wave_names_only(e, w, k as nat, e.len() as int, x);
}

// --- Typestate markers ---
/// A pipeline that has been validated.
pub struct Validated;

/// A pipeline whose execution waves are known.
pub struct Scheduled;

/// A pipeline that is executing.
pub struct Running;

/// Pipeline wrapped in a typestate: Validated, then Scheduled, then Running.
pub struct TypedPipeline<State> {
    pub inner: Pipeline,
    /// The execution waves, filled in by `schedule`.
    pub order: Vec<Vec<String>>,
    _state: PhantomData<State>,
}

impl<State> TypedPipeline<State> {
    /// The pipeline being scheduled.
    pub closed spec fn pipeline(self) -> Pipeline {
        self.inner
    }

    /// The execution waves as plain values.
    pub closed spec fn waves(self) -> Seq<Seq<Seq<char>>> {
        waves_view(self.order@)
    }

    /// The pipeline being scheduled.
    pub fn inner(&self) -> (r: &Pipeline)
        ensures
            *r == self.pipeline(),
    {
        &self.inner
    }

    /// The pipeline, taken out of its state.
    pub fn into_inner(self) -> (r: Pipeline)
        ensures
            r == self.pipeline(),
    {
        self.inner
    }

    /// The execution waves: the stage names of each wave, wave by wave.
    pub fn order(&self) -> (r: &Vec<Vec<String>>)
        ensures
            waves_view(r@) == self.waves(),
    {
        &self.order
    }
}

impl TypedPipeline<Validated> {
    /// Wraps a validated pipeline; it has no waves yet.
    pub fn new(pipeline: Pipeline) -> (res: Self)
        ensures
            res.pipeline() == pipeline,
            res.waves() == Seq::<Seq<Seq<char>>>::empty(),
    {
        TypedPipeline { inner: pipeline, order: Vec::new(), _state: PhantomData }
    }

    /// Validated to Scheduled: builds the DAG and keeps its execution waves.
    pub fn schedule(self) -> (res: Result<TypedPipeline<Scheduled>, String>)
        requires
            fits_graph(self.pipeline().stages@),
        ensures
            res matches Ok(t) ==> t.pipeline() == self.pipeline() && exists|w: Seq<nat>|
                is_wave_assignment(self.pipeline().stages@, w) && t.waves() == group_waves(
                    self.pipeline().stages@,
                    w,
                ),
            res matches Ok(t) ==> t.waves() == scheduled_waves(self.pipeline().stages@),
            res is Ok <==> (deps_known(self.pipeline().stages@) && acyclic(
                self.pipeline().stages@.len(),
                stage_edges(self.pipeline().stages@),
            )),
            res matches Err(m) ==> m@ == waves_error(self.pipeline().stages@),
            res matches Err(m) ==> (deps_known(self.pipeline().stages@) ==> exists|c: int|
                0 <= c < self.pipeline().stages@.len() && on_cycle(
                    stage_edges(self.pipeline().stages@),
                    c,
                ) && m@ == cycle_message(self.pipeline().stages@[c].0)),
    {
        let order = build_execution_waves(&self.inner)?;
        Ok(TypedPipeline { inner: self.inner, order, _state: PhantomData })
    }
}

impl TypedPipeline<Scheduled> {
    /// Scheduled to Running: keeps the pipeline and its waves.
    pub fn start(self) -> (res: TypedPipeline<Running>)
        ensures
            res.pipeline() == self.pipeline(),
            res.waves() == self.waves(),
    {
        TypedPipeline { inner: self.inner, order: self.order, _state: PhantomData }
    }
}

/// A scheduler over an executor of type `T`.
pub struct Scheduler<T> {
    pub waves: Vec<Vec<String>>,
    pub executor: T,
}

impl<T> Scheduler<T> {
    /// A scheduler for the given waves.
    pub fn new(waves: Vec<Vec<String>>, executor: T) -> (res: Self)
        ensures
            res.waves == waves,
            res.executor == executor,
    {
        Scheduler { waves, executor }
    }

    /// The number of waves.
    pub fn wave_count(&self) -> (res: usize)
        ensures
            res == self.waves@.len(),
    {
        self.waves.len()
    }
}

/// Runs stages in the shell.
pub struct ShellExecutor;

/// Runs stages in containers.
pub struct DockerExecutor;

} // verus!
