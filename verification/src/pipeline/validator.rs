//! Validation: the rules a pipeline must meet before it is scheduled.
use vstd::prelude::*;

use crate::error::PipelineError;
use crate::pipeline::dag::{deps_known, needs_of};
use crate::pipeline::model::{Pipeline, Stage, Step};
use crate::strmap::{has_key, Entries};
use crate::text::{blank, is_blank, push_str, to_string};

verus! {

/// A validation failure as plain values: the field and the message.
pub type Failure = (Seq<char>, Seq<char>);

/// What a validation result says: `None` for success, else the field and message
/// of the `Validation` error.
pub open spec fn outcome(r: Result<(), PipelineError>) -> Option<Failure> {
    match r {
        Ok(_) => None,
        Err(PipelineError::Validation { field, message }) => Some((field@, message@)),
        Err(_) => Some((Seq::empty(), Seq::empty())),
    }
}

/// Only `Validation` errors come out of validation.
pub open spec fn only_validation(r: Result<(), PipelineError>) -> bool {
    r matches Err(e) ==> e is Validation
}

/// The first rule a step breaks: a blank name, then a blank command.
pub open spec fn step_failure(s: Step) -> Option<Failure> {
    if blank(s.name@) {
        Some(("step.name"@, "step name cannot be empty"@))
    } else if blank(s.run@) {
        Some(("step.run"@, "step must have a 'run' command"@))
    } else {
        None
    }
}

/// The failure of the first failing step among the first `m`.
pub open spec fn steps_failure(steps: Seq<Step>, m: int) -> Option<Failure>
    decreases m,
{
    if m <= 0 {
        None
    } else {
        match steps_failure(steps, m - 1) {
            Some(f) => Some(f),
            None => step_failure(steps[m - 1]),
        }
    }
}

/// The first rule a stage breaks: a blank image, no steps, then a failing step.
pub open spec fn stage_failure(st: Stage) -> Option<Failure> {
    if blank(st.runs_on@) {
        Some(("stage.runs-on"@, "'runs-on' image cannot be empty"@))
    } else if st.steps@.len() == 0 {
        Some(("stage.steps"@, "stage must have at least one step"@))
    } else {
        steps_failure(st.steps@, st.steps@.len() as int)
    }
}

/// The failure for the first of the first `m` needs of `deps` that names no stage.
pub open spec fn unknown_need(e: Entries<Stage>, name: Seq<char>, deps: Seq<Seq<char>>, m: int) -> Option<
    Failure,
>
    decreases m,
{
    if m <= 0 {
        None
    } else {
        match unknown_need(e, name, deps, m - 1) {
            Some(f) => Some(f),
            None => if has_key(e, deps[m - 1]) {
                None
            } else {
                Some(
                    (
                        "stages."@ + name + ".needs"@,
                        "unknown dependency '"@ + deps[m - 1] + "'"@,
                    ),
                )
            },
        }
    }
}

/// The first failure of stage `i` of a pipeline: its own rules, with the field
/// put under `stages.<name>.`, then its needs.
pub open spec fn stage_entry_failure(e: Entries<Stage>, i: int) -> Option<Failure> {
    match stage_failure(e[i].1) {
        Some((f, msg)) => Some(("stages."@ + e[i].0 + "."@ + f, msg)),
        None => unknown_need(e, e[i].0, needs_of(e[i].1), needs_of(e[i].1).len() as int),
    }
}

/// The failure of the first failing stage among the first `m`.
pub open spec fn stages_failure(e: Entries<Stage>, m: int) -> Option<Failure>
    decreases m,
{
    if m <= 0 {
        None
    } else {
        match stages_failure(e, m - 1) {
            Some(f) => Some(f),
            None => stage_entry_failure(e, m - 1),
        }
    }
}

/// The first rule a pipeline breaks: a blank name, no stages, then a failing stage.
pub open spec fn pipeline_failure(p: Pipeline) -> Option<Failure> {
    if blank(p.name@) {
        Some(("pipeline.name"@, "pipeline name cannot be empty"@))
    } else if p.stages@.len() == 0 {
        Some(("pipeline.stages"@, "pipeline must have at least one stage"@))
    } else {
        stages_failure(p.stages@, p.stages@.len() as int)
    }
}

/// Once a prefix of the steps fails, longer prefixes fail the same way.
pub proof fn lemma_steps_failure_stays(steps: Seq<Step>, i: int, m: int)
    requires
        0 <= i < m,
        steps_failure(steps, i + 1) is Some,
    ensures
        steps_failure(steps, m) == steps_failure(steps, i + 1),
    decreases m,
{
    if m > i + 1 {
        lemma_steps_failure_stays(steps, i, m - 1);
    }
}

/// Once a prefix of the needs has an unknown one, longer prefixes report it.
pub proof fn lemma_unknown_need_stays(
    e: Entries<Stage>,
    name: Seq<char>,
    deps: Seq<Seq<char>>,
    i: int,
    m: int,
)
    requires
        0 <= i < m,
        unknown_need(e, name, deps, i + 1) is Some,
    ensures
        unknown_need(e, name, deps, m) == unknown_need(e, name, deps, i + 1),
    decreases m,
{
    if m > i + 1 {
        lemma_unknown_need_stays(e, name, deps, i, m - 1);
    }
}

/// Once a prefix of the stages fails, longer prefixes fail the same way.
pub proof fn lemma_stages_failure_stays(e: Entries<Stage>, i: int, m: int)
    requires
        0 <= i < m,
        stages_failure(e, i + 1) is Some,
    ensures
        stages_failure(e, m) == stages_failure(e, i + 1),
    decreases m,
{
    if m > i + 1 {
        lemma_stages_failure_stays(e, i, m - 1);
    }
}

/// With no unknown need among the first `m`, each of them names a stage.
proof fn lemma_no_unknown_need(e: Entries<Stage>, name: Seq<char>, deps: Seq<Seq<char>>, m: int)
    requires
        0 <= m <= deps.len(),
        unknown_need(e, name, deps, m) is None,
    ensures
        forall|j: int| 0 <= j < m ==> has_key(e, #[trigger] deps[j]),
    decreases m,
{
    if m > 0 {
        lemma_no_unknown_need(e, name, deps, m - 1);
    }
}

/// With no failing stage among the first `m`, each of them passes on its own.
proof fn lemma_no_stage_failure(e: Entries<Stage>, m: int)
    requires
        0 <= m <= e.len(),
        stages_failure(e, m) is None,
    ensures
        forall|i: int| 0 <= i < m ==> (#[trigger] stage_entry_failure(e, i)) is None,
    decreases m,
{
    if m > 0 {
        lemma_no_stage_failure(e, m - 1);
    }
}

/// Law: every need of a valid pipeline names one of its stages, so a valid
/// pipeline fails to schedule only on a dependency cycle.
pub proof fn lemma_valid_needs_known(p: Pipeline)
    requires
        pipeline_failure(p) is None,
    ensures
        deps_known(p.stages@),
{
    let e = p.stages@;
    lemma_no_stage_failure(e, e.len() as int);
    assert forall|i: int, j: int|
        0 <= i < e.len() && 0 <= j < needs_of(e[i].1).len() implies has_key(
        e,
        #[trigger] needs_of(e[i].1)[j],
    ) by {
        assert(stage_entry_failure(e, i) is None);
        lemma_no_unknown_need(e, e[i].0, needs_of(e[i].1), needs_of(e[i].1).len() as int);
    }
}

/// A step is valid: its name and its command are not blank.
pub open spec fn step_ok(s: Step) -> bool {
    !blank(s.name@) && !blank(s.run@)
}

/// A stage is valid on its own: its image is not blank, it has a step, and
/// every one of its steps is valid.
pub open spec fn stage_ok(st: Stage) -> bool {
    &&& !blank(st.runs_on@)
    &&& st.steps@.len() > 0
    &&& forall|i: int| 0 <= i < st.steps@.len() ==> step_ok(#[trigger] st.steps@[i])
}

/// The first `m` steps pass exactly when each of them does.
proof fn lemma_steps_failure_none(steps: Seq<Step>, m: int)
    requires
        0 <= m <= steps.len(),
    ensures
        steps_failure(steps, m) is None <==> forall|i: int| 0 <= i < m ==> step_ok(#[trigger] steps[i]),
    decreases m,
{
    if m > 0 {
        lemma_steps_failure_none(steps, m - 1);
        if steps_failure(steps, m) is None {
            assert forall|i: int| 0 <= i < m implies step_ok(#[trigger] steps[i]) by {
                if i == m - 1 {
                    assert(step_failure(steps[m - 1]) is None);
                }
            }
        }
    }
}

/// Law: validating a step fails exactly when its name or its command is blank.
pub proof fn lemma_step_valid_iff(s: Step)
    ensures
        step_failure(s) is None <==> step_ok(s),
{
}

/// Law: a stage validates exactly when its image is not blank, it has steps,
/// and every one of its steps validates; so a stage with any invalid step fails.
pub proof fn lemma_stage_valid_iff(st: Stage)
    ensures
        stage_failure(st) is None <==> stage_ok(st),
        forall|i: int|
            0 <= i < st.steps@.len() && !step_ok(#[trigger] st.steps@[i]) ==> stage_failure(st) is Some,
{
    if !blank(st.runs_on@) && st.steps@.len() > 0 {
        lemma_steps_failure_none(st.steps@, st.steps@.len() as int);
    }
}

/// The first `m` needs name stages exactly when no unknown need is among them.
proof fn lemma_unknown_need_none(e: Entries<Stage>, name: Seq<char>, deps: Seq<Seq<char>>, m: int)
    requires
        0 <= m <= deps.len(),
    ensures
        unknown_need(e, name, deps, m) is None <==> forall|j: int| 0 <= j < m ==> has_key(e, #[trigger] deps[j]),
    decreases m,
{
    if m > 0 {
        lemma_unknown_need_none(e, name, deps, m - 1);
    }
}

/// The first `m` stages pass exactly when each passes on its own and names only known needs.
proof fn lemma_stages_failure_none(e: Entries<Stage>, m: int)
    requires
        0 <= m <= e.len(),
    ensures
        stages_failure(e, m) is None <==> forall|i: int|
            0 <= i < m ==> stage_ok(#[trigger] e[i].1) && forall|j: int|
                0 <= j < needs_of(e[i].1).len() ==> has_key(e, #[trigger] needs_of(e[i].1)[j]),
    decreases m,
{
    if m > 0 {
        lemma_stages_failure_none(e, m - 1);
        let st = e[m - 1].1;
        lemma_stage_valid_iff(st);
        lemma_unknown_need_none(e, e[m - 1].0, needs_of(st), needs_of(st).len() as int);
        if stages_failure(e, m) is None {
            assert(stages_failure(e, m - 1) is None);
            assert(stage_entry_failure(e, m - 1) is None);
        }
    }
}

/// Law: a pipeline validates exactly when its name is not blank, it has
/// stages, every stage validates on its own (every step of every stage
/// included), and every need names one of its stages.
pub proof fn lemma_pipeline_valid_iff(p: Pipeline)
    ensures
        pipeline_failure(p) is None <==> {
            &&& !blank(p.name@)
            &&& p.stages@.len() > 0
            &&& forall|i: int| 0 <= i < p.stages@.len() ==> stage_ok(#[trigger] p.stages@[i].1)
            &&& deps_known(p.stages@)
        },
{
    let e = p.stages@;
    if !blank(p.name@) && e.len() > 0 {
        lemma_stages_failure_none(e, e.len() as int);
        if pipeline_failure(p) is None {
            assert(deps_known(e)) by {
                assert forall|i: int, j: int|
                    0 <= i < e.len() && 0 <= j < needs_of(e[i].1).len() implies has_key(
                    e,
                    #[trigger] needs_of(e[i].1)[j],
                ) by {
                    assert(stage_ok(e[i].1));
                }
            }
        } else {
            if (forall|i: int| 0 <= i < e.len() ==> stage_ok(#[trigger] e[i].1)) && deps_known(e) {
                assert forall|i: int| 0 <= i < e.len() implies stage_ok(#[trigger] e[i].1) && forall|j: int|
                    0 <= j < needs_of(e[i].1).len() ==> has_key(e, #[trigger] needs_of(e[i].1)[j]) by {
                    assert forall|j: int| 0 <= j < needs_of(e[i].1).len() implies has_key(
                        e,
                        #[trigger] needs_of(e[i].1)[j],
                    ) by {}
                }
            }
        }
    }
}

fn failure(field: &str, message: &str) -> (res: PipelineError)
    ensures
        res matches PipelineError::Validation { field: f, message: m } && f@ == field@ && m@
            == message@,
{
    PipelineError::Validation { field: to_string(field), message: to_string(message) }
}

/// Anything that can validate itself.
pub trait Validator {
    fn validate(&self) -> Result<(), PipelineError>;
}

impl Validator for Step {
    /// A step needs a name and a command.
    fn validate(&self) -> (res: Result<(), PipelineError>)
        ensures
            outcome(res) == step_failure(*self),
            only_validation(res),
    {
        if is_blank(self.name.as_str()) {
            return Err(failure("step.name", "step name cannot be empty"));
        }
        if is_blank(self.run.as_str()) {
            return Err(failure("step.run", "step must have a 'run' command"));
        }
        Ok(())
    }
}

impl Validator for Stage {
    /// A stage needs an image and at least one step, and each step must be valid.
    fn validate(&self) -> (res: Result<(), PipelineError>)
        ensures
            outcome(res) == stage_failure(*self),
            only_validation(res),
    {
        if is_blank(self.runs_on.as_str()) {
            return Err(failure("stage.runs-on", "'runs-on' image cannot be empty"));
        }
        if self.steps.len() == 0 {
            return Err(failure("stage.steps", "stage must have at least one step"));
        }
        let mut i: usize = 0;
        while i < self.steps.len()
            invariant
                i <= self.steps@.len(),
                !blank(self.runs_on@),
                self.steps@.len() > 0,
                steps_failure(self.steps@, i as int) is None,
            decreases self.steps@.len() - i,
        {
            let r = self.steps[i].validate();
            if r.is_err() {
                proof {
                    assert(outcome(r) == step_failure(self.steps@[i as int]));
                    assert(steps_failure(self.steps@, i + 1) == step_failure(self.steps@[i as int]));
                    lemma_steps_failure_stays(self.steps@, i as int, self.steps@.len() as int);
                }
                return r;
            }
            i += 1;
        }
        Ok(())
    }
}

impl Validator for Pipeline {
    /// A pipeline needs a name and at least one stage; each stage must be valid
    /// and may only need stages of the pipeline. The first failure is reported.
    fn validate(&self) -> (res: Result<(), PipelineError>)
        ensures
            outcome(res) == pipeline_failure(*self),
            only_validation(res),
    {
        if is_blank(self.name.as_str()) {
            return Err(failure("pipeline.name", "pipeline name cannot be empty"));
        }
        if self.stages.is_empty() {
            return Err(failure("pipeline.stages", "pipeline must have at least one stage"));
        }
        let ghost e = self.stages@;
        let mut i: usize = 0;
        while i < self.stages.len()
            invariant
                e == self.stages@,
                !blank(self.name@),
                e.len() > 0,
                i <= e.len(),
                stages_failure(e, i as int) is None,
            decreases e.len() - i,
        {
            let name = self.stages.key_at(i);
            let stage = self.stages.value_at(i);
            match stage.validate() {
                Err(PipelineError::Validation { field, message }) => {
                    let mut f = String::new();
                    push_str(&mut f, "stages.");
                    push_str(&mut f, name.as_str());
                    push_str(&mut f, ".");
                    push_str(&mut f, field.as_str());
                    proof {
                        assert(f@ =~= "stages."@ + e[i as int].0 + "."@ + field@);
                        assert(stage_failure(e[i as int].1) == Some((field@, message@)));
                        assert(stages_failure(e, i + 1) == stage_entry_failure(e, i as int));
                        lemma_stages_failure_stays(e, i as int, e.len() as int);
                    }
                    return Err(PipelineError::Validation { field: f, message });
                },
                Err(other) => {
                    return Err(other);
                },
                Ok(()) => {},
            }
            match &stage.needs {
                Some(needs) => {
                    let mut j: usize = 0;
                    while j < needs.len()
                        invariant
                            e == self.stages@,
                            i < e.len(),
                            name@ == e[i as int].0,
                            *stage == e[i as int].1,
                            stage.needs == Some(*needs),
                            !blank(self.name@),
                            e.len() > 0,
                            stages_failure(e, i as int) is None,
                            stage_failure(e[i as int].1) is None,
                            j <= needs@.len(),
                            unknown_need(e, e[i as int].0, needs_of(e[i as int].1), j as int)
                                is None,
                        decreases needs@.len() - j,
                    {
                        assert(needs_of(e[i as int].1)[j as int] == needs@[j as int]@);
                        if !self.stages.contains_key(needs[j].as_str()) {
                            let mut f = String::new();
                            push_str(&mut f, "stages.");
                            push_str(&mut f, name.as_str());
                            push_str(&mut f, ".needs");
                            let mut m = String::new();
                            push_str(&mut m, "unknown dependency '");
                            push_str(&mut m, needs[j].as_str());
                            push_str(&mut m, "'");
                            proof {
                                assert(f@ =~= "stages."@ + e[i as int].0 + ".needs"@);
                                assert(m@ =~= "unknown dependency '"@ + needs@[j as int]@
                                    + "'"@);
                                assert(unknown_need(
                                    e,
                                    e[i as int].0,
                                    needs_of(e[i as int].1),
                                    j + 1,
                                ) == Some((f@, m@)));
                                lemma_unknown_need_stays(
                                    e,
                                    e[i as int].0,
                                    needs_of(e[i as int].1),
                                    j as int,
                                    needs@.len() as int,
                                );
                                assert(stages_failure(e, i + 1) == stage_entry_failure(
                                    e,
                                    i as int,
                                ));
                                lemma_stages_failure_stays(e, i as int, e.len() as int);
                            }
                            return Err(PipelineError::Validation { field: f, message: m });
                        }
                        j += 1;
                    }
                    assert(needs_of(e[i as int].1).len() == needs@.len());
                },
                None => {},
            }
            i += 1;
        }
        Ok(())
    }
}

} // verus!
