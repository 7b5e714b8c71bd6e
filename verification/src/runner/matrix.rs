//! Matrix builds: a stage fans out over every combination of its matrix values.
use vstd::prelude::*;

use crate::pipeline::model::{Stage, StageStatus, Step};
use crate::strmap::{lemma_insert_map_values, lemma_no_key, map_insert, text_entries, Entries, StrMap};
use crate::text::{push_str, to_uppercase, upper};

verus! {

/// A matrix as plain values: each variable with its values.
pub type MatrixV = Seq<(Seq<char>, Seq<Seq<char>>)>;

/// One combination as plain values: each variable with one value.
pub type ComboV = Entries<Seq<char>>;

/// A matrix as plain values.
pub open spec fn matrix_view(m: Entries<Vec<String>>) -> MatrixV {
    m.map_values(|x: (Seq<char>, Vec<String>)| (x.0, x.1@.map_values(|s: String| s@)))
}

/// Combinations as plain values.
pub open spec fn combos_view(cs: Seq<StrMap<String>>) -> Seq<ComboV> {
    cs.map_values(|c: StrMap<String>| text_entries(c@))
}

/// Every combination of `prev` with `k` set to each of `vals` in turn: all of
/// `prev` with the first value, then all of `prev` with the second, and so on.
pub open spec fn extend_combos(prev: Seq<ComboV>, k: Seq<char>, vals: Seq<Seq<char>>) -> Seq<ComboV>
    decreases vals.len(),
{
    if vals.len() == 0 {
        Seq::empty()
    } else {
        extend_combos(prev, k, vals.drop_last()) + prev.map_values(
            |c: ComboV| map_insert(c, k, vals.last()),
        )
    }
}

/// All combinations of the matrix: one empty combination for no variables,
/// otherwise those of the earlier variables extended by the last one.
pub open spec fn expand_spec(m: MatrixV) -> Seq<ComboV>
    decreases m.len(),
{
    if m.len() == 0 {
        seq![Seq::empty()]
    } else {
        extend_combos(expand_spec(m.drop_last()), m.last().0, m.last().1)
    }
}

/// The product of the numbers of values of the variables.
pub open spec fn combination_count(m: MatrixV) -> nat
    decreases m.len(),
{
    if m.len() == 0 {
        1
    } else {
        combination_count(m.drop_last()) * m.last().1.len()
    }
}

pub proof fn lemma_extend_len(prev: Seq<ComboV>, k: Seq<char>, vals: Seq<Seq<char>>)
    ensures
        extend_combos(prev, k, vals).len() == vals.len() * prev.len(),
    decreases vals.len(),
{
    if vals.len() > 0 {
        lemma_extend_len(prev, k, vals.drop_last());
        let n = vals.len() as int;
        let p = prev.len() as int;
        assert((n - 1) * p + p == n * p) by (nonlinear_arith);
    }
}

/// Law: a matrix has as many combinations as the product of the numbers of
/// values of its variables (3 values times 2 values give 6 jobs).
pub proof fn lemma_expand_count(m: MatrixV)
    ensures
        expand_spec(m).len() == combination_count(m),
    decreases m.len(),
{
    if m.len() > 0 {
        lemma_expand_count(m.drop_last());
        lemma_extend_len(expand_spec(m.drop_last()), m.last().0, m.last().1);
        let a = combination_count(m.drop_last()) as int;
        let b = m.last().1.len() as int;
        assert(b * a == a * b) by (nonlinear_arith);
    }
}

/// No two variables of the matrix have the same name.
pub open spec fn names_distinct(m: MatrixV) -> bool {
    forall|a: int, b: int| 0 <= a < b < m.len() ==> (#[trigger] m[a]).0 != (#[trigger] m[b]).0
}

/// `c` sets each variable of `m`, in the matrix's order, to one of its values.
pub open spec fn combo_of(m: MatrixV, c: ComboV) -> bool {
    &&& c.len() == m.len()
    &&& forall|i: int| 0 <= i < m.len() ==> (#[trigger] c[i]).0 == m[i].0 && m[i].1.contains(c[i].1)
}

/// Each combination extended by `k` is one of `prev` with `k` set to one of `vals`.
proof fn lemma_extend_index(prev: Seq<ComboV>, k: Seq<char>, vals: Seq<Seq<char>>, j: int)
    requires
        0 <= j < extend_combos(prev, k, vals).len(),
    ensures
        exists|a: int, b: int|
            0 <= a < prev.len() && 0 <= b < vals.len() && extend_combos(prev, k, vals)[j]
                == map_insert(prev[a], k, vals[b]),
    decreases vals.len(),
{
    let front = extend_combos(prev, k, vals.drop_last());
    let back = prev.map_values(|c: ComboV| map_insert(c, k, vals.last()));
    assert(extend_combos(prev, k, vals) == front + back);
    if j < front.len() {
        lemma_extend_index(prev, k, vals.drop_last(), j);
        let (a, b) = choose|a: int, b: int|
            0 <= a < prev.len() && 0 <= b < vals.drop_last().len() && front[j] == map_insert(
                prev[a],
                k,
                vals.drop_last()[b],
            );
        assert(vals.drop_last()[b] == vals[b]);
        assert(extend_combos(prev, k, vals)[j] == map_insert(prev[a], k, vals[b]));
    } else {
        let a = j - front.len();
        assert(extend_combos(prev, k, vals)[j] == back[a]);
        assert(back[a] == map_insert(prev[a], k, vals[vals.len() - 1]));
    }
}

/// Every combination of a matrix sets each of its variables to one of its values.
proof fn lemma_expand_shape(m: MatrixV, j: int)
    requires
        names_distinct(m),
        0 <= j < expand_spec(m).len(),
    ensures
        combo_of(m, expand_spec(m)[j]),
    decreases m.len(),
{
    if m.len() == 0 {
        assert(expand_spec(m) == seq![Seq::<(Seq<char>, Seq<char>)>::empty()]);
    } else {
        let init = m.drop_last();
        let k = m.last().0;
        let vals = m.last().1;
        let prev = expand_spec(init);
        lemma_extend_index(prev, k, vals, j);
        let (a, b) = choose|a: int, b: int|
            0 <= a < prev.len() && 0 <= b < vals.len() && extend_combos(prev, k, vals)[j]
                == map_insert(prev[a], k, vals[b]);
        assert(names_distinct(init)) by {
            assert forall|x: int, y: int| 0 <= x < y < init.len() implies (#[trigger] init[x]).0
                != (#[trigger] init[y]).0 by {
                assert(init[x] == m[x]);
                assert(init[y] == m[y]);
            }
        }
        lemma_expand_shape(init, a);
        let c = prev[a];
        assert forall|x: int| 0 <= x < c.len() implies (#[trigger] c[x]).0 != k by {
            assert(c[x].0 == init[x].0);
            assert(init[x] == m[x]);
            assert(m[m.len() - 1].0 == k);
        }
        lemma_no_key(c, k);
        let r = map_insert(c, k, vals[b]);
        assert(r == c.push((k, vals[b])));
        assert forall|i: int| 0 <= i < m.len() implies (#[trigger] r[i]).0 == m[i].0 && m[i].1.contains(
            r[i].1,
        ) by {
            if i < m.len() - 1 {
                assert(r[i] == c[i]);
                assert(init[i] == m[i]);
            } else {
                assert(r[i] == (k, vals[b]));
                assert(m[i].1[b] == vals[b]);
            }
        }
    }
}

/// Law: every job of a matrix gets each matrix variable, in the matrix's order,
/// set to one of that variable's values (for a matrix whose variables have
/// distinct names, as a map's keys do).
pub proof fn lemma_combinations_set_every_variable(m: MatrixV, j: int)
    requires
        names_distinct(m),
        0 <= j < expand_spec(m).len(),
    ensures
        combo_of(m, expand_spec(m)[j]),
{
    lemma_expand_shape(m, j);
}

/// Generates all combinations of matrix variable values, e.g.
/// `{rust: [stable, beta], os: [linux, macos]}` gives 4 combinations.
pub fn expand(matrix: &StrMap<Vec<String>>) -> (res: Vec<StrMap<String>>)
    ensures
        combos_view(res@) == expand_spec(matrix_view(matrix@)),
{
    let ghost mv = matrix_view(matrix@);
    let mut result: Vec<StrMap<String>> = Vec::new();
    result.push(StrMap::new());
    proof {
        assert(mv.take(0) =~= Seq::<(Seq<char>, Seq<Seq<char>>)>::empty());
        assert(text_entries(result@[0]@) =~= Seq::<(Seq<char>, Seq<char>)>::empty());
        assert(combos_view(result@) =~= expand_spec(mv.take(0)));
    }
    let mut idx: usize = 0;
    while idx < matrix.len()
        invariant
            mv == matrix_view(matrix@),
            idx <= matrix@.len(),
            combos_view(result@) == expand_spec(mv.take(idx as int)),
        decreases matrix@.len() - idx,
    {
        let key = matrix.key_at(idx);
        let values = matrix.value_at(idx);
        let ghost prev = combos_view(result@);
        let ghost vals = values@.map_values(|s: String| s@);
        let mut next: Vec<StrMap<String>> = Vec::new();
        let mut vi: usize = 0;
        proof {
            assert(vals.take(0) =~= Seq::<Seq<char>>::empty());
            assert(combos_view(next@) =~= extend_combos(prev, key@, vals.take(0)));
        }
        while vi < values.len()
            invariant
                prev == combos_view(result@),
                vals == values@.map_values(|s: String| s@),
                vi <= values@.len(),
                combos_view(next@) == extend_combos(prev, key@, vals.take(vi as int)),
            decreases values@.len() - vi,
        {
            let ghost base = combos_view(next@);
            let mut ci: usize = 0;
            while ci < result.len()
                invariant
                    prev == combos_view(result@),
                    vals == values@.map_values(|s: String| s@),
                    vi < values@.len(),
                    ci <= result@.len(),
                    combos_view(next@) == base + prev.take(ci as int).map_values(
                        |c: ComboV| map_insert(c, key@, vals[vi as int]),
                    ),
                decreases result@.len() - ci,
            {
                let mut combo = result[ci].copied();
                let k = key.clone();
                let v = values[vi].clone();
                let ghost c0 = combo@;
                proof {
                    lemma_insert_map_values(c0, k@, v, |s: String| s@);
                }
                combo.insert(k, v);
                let ghost before = combos_view(next@);
                next.push(combo);
                proof {
                    assert(combos_view(next@) =~= before.push(text_entries(combo@)));
                    assert(prev[ci as int] == text_entries(result@[ci as int]@));
                    assert(prev.take(ci + 1) =~= prev.take(ci as int).push(prev[ci as int]));
                    assert(combos_view(next@) =~= base + prev.take(ci + 1).map_values(
                        |c: ComboV| map_insert(c, key@, vals[vi as int]),
                    ));
                }
                ci += 1;
            }
            proof {
                assert(prev.take(ci as int) =~= prev);
                let t = vals.take(vi + 1);
                assert(t.drop_last() =~= vals.take(vi as int));
                assert(t.last() == vals[vi as int]);
            }
            vi += 1;
        }
        proof {
            assert(vals.take(vi as int) =~= vals);
            let t = mv.take(idx + 1);
            assert(t.drop_last() =~= mv.take(idx as int));
            assert(t.last() == (key@, vals));
        }
        result = next;
        idx += 1;
    }
    proof {
        assert(mv.take(matrix@.len() as int) =~= mv);
    }
    result
}

/// `parts` joined with `sep` between them.
pub open spec fn join_spec(parts: Seq<Seq<char>>, sep: Seq<char>) -> Seq<char>
    decreases parts.len(),
{
    if parts.len() == 0 {
        Seq::empty()
    } else if parts.len() == 1 {
        parts[0]
    } else {
        join_spec(parts.drop_last(), sep) + sep + parts.last()
    }
}

/// `k=v` for each variable, or `K=v` with the name upper-cased.
pub open spec fn pair_parts(c: ComboV, upper_keys: bool) -> Seq<Seq<char>> {
    c.map_values(
        |x: (Seq<char>, Seq<char>)|
            (if upper_keys {
                upper(x.0)
            } else {
                x.0
            }) + "="@ + x.1,
    )
}

/// The label of a combination: `k=v` for each variable, joined by `", "`.
pub open spec fn combo_label_spec(c: ComboV) -> Seq<char> {
    join_spec(pair_parts(c, false), ", "@)
}

/// The environment prefix of a combination: `K=v` for each variable (the name
/// upper-cased), joined by spaces.
pub open spec fn env_prefix_spec(c: ComboV) -> Seq<char> {
    join_spec(pair_parts(c, true), " "@)
}

/// Joins `k=v` (or `K=v` with the name upper-cased) for each variable with `sep`.
fn join_pairs(combo: &StrMap<String>, upper_keys: bool, sep: &str) -> (res: String)
    ensures
        res@ == join_spec(pair_parts(text_entries(combo@), upper_keys), sep@),
{
    let ghost parts = pair_parts(text_entries(combo@), upper_keys);
    let mut out = String::new();
    let mut i: usize = 0;
    while i < combo.len()
        invariant
            i <= combo@.len(),
            parts.len() == combo@.len(),
            parts == pair_parts(text_entries(combo@), upper_keys),
            out@ == join_spec(parts.take(i as int), sep@),
        decreases combo@.len() - i,
    {
        let ghost before = out@;
        if i > 0 {
            push_str(&mut out, sep);
        }
        if upper_keys {
            let k = to_uppercase(combo.key_at(i).as_str());
            push_str(&mut out, k.as_str());
        } else {
            push_str(&mut out, combo.key_at(i).as_str());
        }
        push_str(&mut out, "=");
        push_str(&mut out, combo.value_at(i).as_str());
        proof {
            let t = parts.take(i + 1);
            assert(t.drop_last() =~= parts.take(i as int));
            assert(t.last() == parts[i as int]);
            if i == 0 {
                assert(out@ =~= parts[0]);
            } else {
                assert(out@ =~= before + sep@ + parts[i as int]);
            }
        }
        i += 1;
    }
    proof {
        assert(parts.take(combo@.len() as int) =~= parts);
    }
    out
}

/// The label of a combination, such as `os=linux, rust=stable`.
pub fn combo_label(combo: &StrMap<String>) -> (res: String)
    ensures
        res@ == combo_label_spec(text_entries(combo@)),
{
    join_pairs(combo, false, ", ")
}

/// The environment prefix of a combination, such as `OS=linux RUST=stable`.
pub fn env_prefix(combo: &StrMap<String>) -> (res: String)
    ensures
        res@ == env_prefix_spec(text_entries(combo@)),
{
    join_pairs(combo, true, " ")
}

/// `stage` with each step command prefixed by `prefix` and a space, so that the
/// matrix variables are set in the command's environment.
pub fn with_env_prefix(stage: Stage, prefix: &str) -> (res: Stage)
    ensures
        res.runs_on == stage.runs_on,
        res.needs == stage.needs,
        res.when == stage.when,
        res.timeout_secs == stage.timeout_secs,
        res.matrix == stage.matrix,
        res.fail_fast == stage.fail_fast,
        res.steps@.len() == stage.steps@.len(),
        forall|i: int|
            0 <= i < res.steps@.len() ==> {
                &&& (#[trigger] res.steps@[i]).name == stage.steps@[i].name
                &&& res.steps@[i].run@ == prefix@ + " "@ + stage.steps@[i].run@
                &&& res.steps@[i].artifact == stage.steps@[i].artifact
                &&& res.steps@[i].retry == stage.steps@[i].retry
            },
{
    let Stage { runs_on, steps, needs, when, timeout_secs, matrix, fail_fast } = stage;
    let ghost old_steps = steps@;
    let mut patched: Vec<Step> = Vec::new();
    for step in it: steps
        invariant
            it.seq() == old_steps,
            patched@.len() == it.index(),
            forall|i: int|
                0 <= i < patched@.len() ==> {
                    &&& (#[trigger] patched@[i]).name == old_steps[i].name
                    &&& patched@[i].run@ == prefix@ + " "@ + old_steps[i].run@
                    &&& patched@[i].artifact == old_steps[i].artifact
                    &&& patched@[i].retry == old_steps[i].retry
                },
    {
        let Step { name, run, artifact, retry } = step;
        let mut cmd = String::new();
        push_str(&mut cmd, prefix);
        push_str(&mut cmd, " ");
        push_str(&mut cmd, run.as_str());
        proof {
            assert(cmd@ =~= prefix@ + " "@ + run@);
        }
        patched.push(Step { name, run: cmd, artifact, retry });
    }
    Stage { runs_on, steps: patched, needs, when, timeout_secs, matrix, fail_fast }
}

/// The outcome of a matrix stage: failed if any job failed, passed otherwise.
pub open spec fn matrix_outcome_spec(statuses: Seq<StageStatus>) -> StageStatus {
    if exists|i: int| 0 <= i < statuses.len() && statuses[i] == StageStatus::Failed {
        StageStatus::Failed
    } else {
        StageStatus::Passed
    }
}

/// Law: a matrix stage fails as soon as any one of its jobs failed, wherever
/// that job stands, and passes when none failed.
pub proof fn lemma_matrix_any_failed(statuses: Seq<StageStatus>, i: int)
    ensures
        0 <= i < statuses.len() && statuses[i] == StageStatus::Failed ==> matrix_outcome_spec(
            statuses,
        ) == StageStatus::Failed,
        (forall|j: int| 0 <= j < statuses.len() ==> statuses[j] != StageStatus::Failed)
            ==> matrix_outcome_spec(statuses) == StageStatus::Passed,
        matrix_outcome_spec(statuses) == StageStatus::Failed || matrix_outcome_spec(statuses)
            == StageStatus::Passed,
{
}

/// Failed if any job of the matrix failed (fail-fast only stops the report
/// early), passed otherwise.
pub fn matrix_outcome(statuses: &Vec<StageStatus>) -> (res: StageStatus)
    ensures
        res == matrix_outcome_spec(statuses@),
{
    let mut i: usize = 0;
    while i < statuses.len()
        invariant
            i <= statuses@.len(),
            forall|j: int| 0 <= j < i ==> statuses@[j] != StageStatus::Failed,
        decreases statuses@.len() - i,
    {
        if statuses[i] == StageStatus::Failed {
            return StageStatus::Failed;
        }
        i += 1;
    }
    StageStatus::Passed
}

} // verus!
