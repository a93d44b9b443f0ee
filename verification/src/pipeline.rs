//! An ordered list of stages, run one after another over a node.
use crate::action_ref::ActionRef;
use crate::context::{
    fresh_context, ref_views, same_inputs, AuditContext, AuditContextView, StageErrorView,
};
use crate::output::{entry_of, ActionEntry, ActionEntryView};
use crate::stage::Stage;
use std::sync::Arc;
use vstd::prelude::*;

verus! {

/// The number of nodes processed at once where none is given.
pub const DEFAULT_CONCURRENCY: usize = 10;

/// One place in the list of stages.
struct Slot {
    stage: Box<dyn Stage>,
}

/// The stages of a list of slots.
spec fn slot_stages(slots: Seq<Slot>) -> Seq<Box<dyn Stage>> {
    Seq::new(slots.len(), |i: int| slots[i].stage)
}

/// A stage as the pipeline holds it.
pub open spec fn as_stage<S: Stage + 'static>(stage: S) -> Box<dyn Stage> {
    Box::new(stage)
}

/// An immutable, ordered container of stages.
pub struct Pipeline {
    stages: Arc<Vec<Slot>>,
    max_concurrency: usize,
}

/// Collects stages, in the order in which they will run.
pub struct PipelineBuilder {
    stages: Vec<Slot>,
    max_concurrency: usize,
}

/// What the caller of a stage leaves on the context once the stage has
/// returned: the error of a stage that failed, under the stage's name,
/// behind the errors already there; nothing for a stage that succeeded.
pub open spec fn settled(ctx: AuditContextView, name: Seq<char>, outcome: Result<(), String>)
    -> AuditContextView {
    match outcome {
        Ok(_) => ctx,
        Err(e) => AuditContextView {
            errors: ctx.errors.push(StageErrorView { stage: name, message: e@ }),
            ..ctx
        },
    }
}

/// One stage at work: the context it was handed, the context it left,
/// its name and its outcome.
pub struct StageStep {
    pub before: AuditContextView,
    pub after: AuditContextView,
    pub name: Seq<char>,
    pub outcome: Result<(), String>,
}

/// What the caller leaves on the context after a step.
pub open spec fn after_step(step: StageStep) -> AuditContextView {
    settled(step.after, step.name, step.outcome)
}

/// The context that stage `i` is handed: `start` for the first stage,
/// else what the caller left after the stage before.
pub open spec fn handed(start: AuditContextView, steps: Seq<StageStep>, i: int)
    -> AuditContextView {
    if i <= 0 {
        start
    } else {
        after_step(steps[i - 1])
    }
}

/// Whether step `i` fits into the run: the stage was handed what the run
/// had reached, and left alone what the walker fixed.
pub open spec fn linked(start: AuditContextView, steps: Seq<StageStep>, i: int) -> bool {
    steps[i].before == handed(start, steps, i) && same_inputs(steps[i].after, steps[i].before)
}

/// Whether `steps` lead from `start` to `end`: the first stage is handed
/// `start`; each stage leaves alone what the walker fixed; whatever its
/// outcome, the next stage is handed what it left, with its error
/// recorded where it failed; and `end` is what is left after the last.
pub open spec fn chained(start: AuditContextView, steps: Seq<StageStep>, end: AuditContextView)
    -> bool {
    &&& forall|i: int| 0 <= i < steps.len() ==> #[trigger] linked(start, steps, i)
    &&& end == handed(start, steps, steps.len() as int)
}

/// Whether `step` is a run of stage `i` of `stages`: that stage may lead
/// from the context it was handed to the context it left with that
/// outcome, and the step goes by the stage's name.
pub open spec fn step_of(stages: Seq<Box<dyn Stage>>, i: int, step: StageStep) -> bool {
    stages[i].effect(step.before, step.after, step.outcome) && stages[i].named(step.name)
}

/// Whether `steps` are one run of each of `stages`, in their order.
pub open spec fn each_ran(stages: Seq<Box<dyn Stage>>, steps: Seq<StageStep>) -> bool {
    steps.len() == stages.len() && forall|i: int|
        0 <= i < steps.len() ==> step_of(stages, i, #[trigger] steps[i])
}

/// Whether a run of `stages`, each once and one after another, leads
/// from `start` to `end`.
#[verifier::opaque]
pub open spec fn ran(stages: Seq<Box<dyn Stage>>, start: AuditContextView, end: AuditContextView)
    -> bool {
    exists|steps: Seq<StageStep>|
        each_ran(stages, steps) && #[trigger] chained(start, steps, end)
}

/// Failure tolerance: a stage that fails does not end the run. Its error
/// stands last among the errors of the context that the next stage is
/// handed, or, after the last stage, of the context that the run leaves.
pub proof fn failure_is_recorded(
    start: AuditContextView,
    steps: Seq<StageStep>,
    end: AuditContextView,
    i: int,
)
    requires
        chained(start, steps, end),
        0 <= i < steps.len(),
        steps[i].outcome is Err,
    ensures
        ({
            let handed_on = if i + 1 < steps.len() {
                steps[i + 1].before
            } else {
                end
            };
            handed_on.errors.len() > 0 && handed_on.errors.last() == (StageErrorView {
                stage: steps[i].name,
                message: steps[i].outcome->Err_0@,
            })
        }),
{
    if i + 1 < steps.len() {
        assert(linked(start, steps, i + 1));
    }
}

/// A run leaves alone what the walker fixed for the node.
pub proof fn lemma_chained_inputs(start: AuditContextView, steps: Seq<StageStep>, n: int)
    requires
        0 <= n <= steps.len(),
        forall|i: int| 0 <= i < steps.len() ==> #[trigger] linked(start, steps, i),
    ensures
        same_inputs(handed(start, steps, n), start),
    decreases n,
{
    if n > 0 {
        lemma_chained_inputs(start, steps, n - 1);
        assert(linked(start, steps, n - 1));
    }
}

/// Whether `entry` is what a run of `stages` found for `action` as the
/// root at position `i`.
pub open spec fn found_for(
    stages: Seq<Box<dyn Stage>>,
    action: crate::action_ref::ActionRefView,
    i: usize,
    entry: ActionEntryView,
) -> bool {
    exists|end: AuditContextView| #[trigger]
        ran(stages, fresh_context(action, 0, None, Some(i)), end) && entry == entry_of(end)
}

impl Pipeline {
    /// The stages, in the order in which they run.
    pub closed spec fn stages(&self) -> Seq<Box<dyn Stage>> {
        slot_stages(self.stages@)
    }

    /// Number of stages.
    pub open spec fn len(&self) -> nat {
        self.stages().len()
    }

    /// The concurrency budget as a mathematical value.
    pub closed spec fn budget(&self) -> usize {
        self.max_concurrency
    }

    /// An empty builder with the default concurrency.
    pub fn builder() -> (b: PipelineBuilder)
        ensures
            b.stages() == Seq::<Box<dyn Stage>>::empty(),
            b.budget() == DEFAULT_CONCURRENCY,
    {
        PipelineBuilder::new()
    }

    /// Records the outcome of a stage on the context: an error is appended
    /// under the stage's name, a success changes nothing.
    pub fn settle(ctx: &mut AuditContext, name: &str, outcome: &Result<(), String>)
        ensures
            final(ctx)@ == settled(old(ctx)@, name@, *outcome),
    {
        match outcome {
            Ok(_) => {},
            Err(e) => {
                ctx.record_error(name, e.as_str());
            },
        }
    }

    /// Runs every stage on `ctx`, in order. A stage that fails does not
    /// stop the others: its error is recorded and the next stage runs.
    /// What the walker fixed for the node is as before; with no stage the
    /// context is unchanged.
    pub fn run_one(&self, ctx: &mut AuditContext)
        ensures
            ran(self.stages(), old(ctx)@, final(ctx)@),
            same_inputs(final(ctx)@, old(ctx)@),
            self.len() == 0 ==> final(ctx)@ == old(ctx)@,
    {
        let ghost mut steps: Seq<StageStep> = Seq::empty();
        let mut i: usize = 0;
        while i < self.stages.len()
            invariant
                i <= self.stages@.len(),
                steps.len() == i,
                forall|k: int| 0 <= k < i ==> step_of(self.stages(), k, #[trigger] steps[k]),
                chained(old(ctx)@, steps, ctx@),
            decreases self.stages@.len() - i,
        {
            let ghost before = ctx@;
            let ghost earlier = steps;
            let outcome = self.stages[i].stage.run(ctx);
            let ghost after = ctx@;
            let name = self.stages[i].stage.name();
            Pipeline::settle(ctx, name, &outcome);
            proof {
                let step = StageStep { before, after, name: name@, outcome };
                steps = earlier.push(step);
                assert forall|k: int| 0 <= k < steps.len() implies #[trigger] linked(
                    old(ctx)@,
                    steps,
                    k,
                ) by {
                    if k < earlier.len() {
                        assert(linked(old(ctx)@, earlier, k));
                        assert(steps[k] == earlier[k]);
                        if k > 0 {
                            assert(steps[k - 1] == earlier[k - 1]);
                        }
                    } else if k > 0 {
                        assert(steps[k - 1] == earlier[k - 1]);
                    }
                }
                assert(steps[i as int] == step);
                assert(self.stages()[i as int] == self.stages@[i as int].stage);
                assert(step_of(self.stages(), i as int, step));
                assert forall|k: int| 0 <= k < i + 1 implies step_of(
                    self.stages(),
                    k,
                    #[trigger] steps[k],
                ) by {
                    if k < i {
                        assert(steps[k] == earlier[k]);
                    }
                }
            }
            i = i + 1;
        }
        proof {
            lemma_chained_inputs(old(ctx)@, steps, steps.len() as int);
            reveal(ran);
            assert(each_ran(self.stages(), steps) && chained(old(ctx)@, steps, ctx@));
        }
    }

    /// Runs the stages over each action, in input order, each as a root
    /// at its position, and returns what was found for each. With no
    /// stage the entries are bare.
    pub fn run(&self, actions: Vec<ActionRef>) -> (entries: Vec<ActionEntry>)
        ensures
            entries@.len() == actions@.len(),
            forall|i: int|
                0 <= i < entries@.len() ==> found_for(
                    self.stages(),
                    actions@[i]@,
                    i as usize,
                    (#[trigger] entries@[i])@,
                ),
            forall|i: int|
                0 <= i < entries@.len() ==> (#[trigger] entries@[i])@.action == actions@[i]@,
            self.len() == 0 ==> forall|i: int|
                0 <= i < entries@.len() ==> (#[trigger] entries@[i])@ == entry_of(
                    fresh_context(actions@[i]@, 0, None, Some(i as usize)),
                ),
    {
        let mut entries: Vec<ActionEntry> = Vec::new();
        let mut i: usize = 0;
        while i < actions.len()
            invariant
                i <= actions@.len(),
                entries@.len() == i,
                forall|k: int|
                    0 <= k < i ==> (#[trigger] entries@[k])@.action == actions@[k]@,
                forall|k: int|
                    0 <= k < i ==> found_for(
                        self.stages(),
                        actions@[k]@,
                        k as usize,
                        (#[trigger] entries@[k])@,
                    ),
                self.len() == 0 ==> forall|k: int|
                    0 <= k < i ==> (#[trigger] entries@[k])@ == entry_of(
                        fresh_context(actions@[k]@, 0, None, Some(k as usize)),
                    ),
            decreases actions@.len() - i,
        {
            let mut ctx = AuditContext::new(actions[i].duplicate(), 0, None, Some(i));
            let ghost before = ctx@;
            self.run_one(&mut ctx);
            let ghost prev = entries@;
            let ghost end = ctx@;
            entries.push(ActionEntry::from(ctx));
            proof {
                assert(ran(self.stages(), before, end) && entries@[i as int]@ == entry_of(end));
                assert forall|k: int| 0 <= k < i + 1 implies found_for(
                    self.stages(),
                    actions@[k]@,
                    k as usize,
                    (#[trigger] entries@[k])@,
                ) by {
                    if k < i {
                        assert(entries@[k] == prev[k]);
                    }
                }
                assert forall|k: int| 0 <= k < i + 1 implies (#[trigger] entries@[k])@.action
                    == actions@[k]@ by {
                    if k < i {
                        assert(entries@[k] == prev[k]);
                    }
                }
                if self.len() == 0 {
                    assert forall|k: int| 0 <= k < i + 1 implies (#[trigger] entries@[k])@
                        == entry_of(fresh_context(actions@[k]@, 0, None, Some(k as usize))) by {
                        if k < i {
                            assert(entries@[k] == prev[k]);
                        }
                    }
                }
            }
            i = i + 1;
        }
        entries
    }

    /// Number of stages.
    pub fn stage_count(&self) -> (n: usize)
        ensures
            n == self.len(),
    {
        self.stages.len()
    }

    /// How many nodes may be processed at once.
    pub fn max_concurrency(&self) -> (n: usize)
        ensures
            n == self.budget(),
    {
        self.max_concurrency
    }

    /// The names of the stages, in the order in which they run.
    pub fn stage_names(&self) -> (names: Vec<&'static str>)
        ensures
            names@.len() == self.len(),
            forall|i: int|
                0 <= i < names@.len() ==> self.stages()[i].named((#[trigger] names@[i])@),
    {
        let mut names: Vec<&'static str> = Vec::new();
        let mut i: usize = 0;
        while i < self.stages.len()
            invariant
                i <= self.stages@.len(),
                names@.len() == i,
                forall|k: int|
                    0 <= k < i ==> self.stages@[k].stage.named((#[trigger] names@[k])@),
            decreases self.stages@.len() - i,
        {
            names.push(self.stages[i].stage.name());
            i = i + 1;
        }
        names
    }
}

impl Clone for Pipeline {
    fn clone(&self) -> (c: Pipeline)
        ensures
            c.stages() == self.stages(),
            c.budget() == self.budget(),
    {
        Pipeline { stages: self.stages.clone(), max_concurrency: self.max_concurrency }
    }
}

impl PipelineBuilder {
    /// The stages collected so far, in their order.
    pub closed spec fn stages(&self) -> Seq<Box<dyn Stage>> {
        slot_stages(self.stages@)
    }

    /// Number of stages collected so far.
    pub open spec fn len(&self) -> nat {
        self.stages().len()
    }

    /// The concurrency budget chosen so far.
    pub closed spec fn budget(&self) -> usize {
        self.max_concurrency
    }

    /// An empty builder with the default concurrency.
    pub fn new() -> (b: PipelineBuilder)
        ensures
            b.stages() == Seq::<Box<dyn Stage>>::empty(),
            b.budget() == DEFAULT_CONCURRENCY,
    {
        PipelineBuilder { stages: Vec::new(), max_concurrency: DEFAULT_CONCURRENCY }
    }

    /// Adds `stage` behind the stages already there: the stages so far
    /// stay as they are, in their order, and `stage` is the last.
    pub fn stage<S: Stage + 'static>(self, stage: S) -> (b: PipelineBuilder)
        ensures
            b.stages().len() == self.stages().len() + 1,
            b.stages().drop_last() == self.stages(),
            b.stages().last() == as_stage(stage),
            b.budget() == self.budget(),
    {
        let boxed: Box<dyn Stage> = Box::new(stage);
        self.with_slot(Slot { stage: boxed })
    }

    fn with_slot(self, slot: Slot) -> (b: PipelineBuilder)
        ensures
            b.stages().len() == self.stages().len() + 1,
            b.stages().drop_last() == self.stages(),
            b.stages().last() == slot.stage,
            b.budget() == self.budget(),
    {
        let ghost before = self.stages@;
        let mut stages = self.stages;
        stages.push(slot);
        proof {
            assert(stages@ == before.push(slot));
            assert(slot_stages(stages@).len() == before.len() + 1);
            assert forall|k: int| 0 <= k < before.len() implies slot_stages(stages@).drop_last()[k]
                == slot_stages(before)[k] by {
                assert(stages@[k] == before[k]);
            }
            assert(slot_stages(stages@).drop_last() =~= slot_stages(before));
            assert(slot_stages(stages@).last() == stages@[before.len() as int].stage);
        }
        PipelineBuilder { stages, max_concurrency: self.max_concurrency }
    }

    /// Sets how many nodes may be processed at once.
    pub fn max_concurrency(self, n: usize) -> (b: PipelineBuilder)
        ensures
            b.stages() == self.stages(),
            b.budget() == n,
    {
        PipelineBuilder { stages: self.stages, max_concurrency: n }
    }

    /// The pipeline of the stages collected, in their order.
    pub fn build(self) -> (p: Pipeline)
        ensures
            p.stages() == self.stages(),
            p.budget() == self.budget(),
    {
        Pipeline { stages: Arc::new(self.stages), max_concurrency: self.max_concurrency }
    }
}

impl Default for PipelineBuilder {
    fn default() -> (b: PipelineBuilder)
        ensures
            b.stages() == Seq::<Box<dyn Stage>>::empty(),
            b.budget() == DEFAULT_CONCURRENCY,
    {
        PipelineBuilder::new()
    }
}

} // verus!
