//! The advisory stage: asks every source about the node and merges what
//! they report.
use crate::action_ref::{ActionRef, ActionRefView};
use crate::advisory::{
    advisory_views, dedup_spec, deduplicate_advisories, Advisory, AdvisoryView,
};
use crate::context::{same_inputs, AuditContext, AuditContextView, StageErrorView};
use crate::deps::copy_advisories;
use crate::providers::{answer_view, ActionAdvisoryProvider};
use crate::stage::Stage;
use std::sync::Arc;
use vstd::prelude::*;

verus! {

/// What one source answered.
#[derive(Debug)]
pub struct SourceAnswer {
    /// Name of the source.
    pub source: String,
    /// Its advisories, or why it has none.
    pub result: Result<Vec<Advisory>, String>,
}

/// Mathematical value of a [`SourceAnswer`].
pub struct SourceAnswerView {
    pub source: Seq<char>,
    pub result: Result<Seq<AdvisoryView>, Seq<char>>,
}

impl View for SourceAnswer {
    type V = SourceAnswerView;

    open spec fn view(&self) -> SourceAnswerView {
        SourceAnswerView {
            source: self.source@,
            result: answer_view(self.result),
        }
    }
}

/// The views of a list of answers.
pub open spec fn answer_views(v: Seq<SourceAnswer>) -> Seq<SourceAnswerView> {
    Seq::new(v.len(), |i: int| v[i]@)
}

/// The advisories of the first `n` answers, in order of the sources.
pub open spec fn reported_upto(answers: Seq<SourceAnswerView>, n: nat) -> Seq<AdvisoryView>
    decreases n,
{
    if n == 0 || n > answers.len() {
        Seq::empty()
    } else {
        let before = reported_upto(answers, (n - 1) as nat);
        match answers[n - 1].result {
            Ok(advs) => before + advs,
            Err(_) => before,
        }
    }
}

/// The failures among the first `n` answers, each as an error of `stage`
/// that names the source: `source: message`.
pub open spec fn failures_upto(answers: Seq<SourceAnswerView>, stage: Seq<char>, n: nat) -> Seq<
    StageErrorView,
>
    decreases n,
{
    if n == 0 || n > answers.len() {
        Seq::empty()
    } else {
        let before = failures_upto(answers, stage, (n - 1) as nat);
        match answers[n - 1].result {
            Ok(_) => before,
            Err(e) => before.push(
                StageErrorView { stage, message: answers[n - 1].source + ": "@ + e },
            ),
        }
    }
}

/// The context once the answers of the sources are merged into it: the
/// advisories are those reported, in order of the sources, merged; every
/// failure stands behind the errors already there.
pub open spec fn merged(ctx: AuditContextView, answers: Seq<SourceAnswerView>)
    -> AuditContextView {
    AuditContextView {
        advisories: dedup_spec(reported_upto(answers, answers.len())),
        errors: ctx.errors + failures_upto(answers, "Advisory"@, answers.len()),
        ..ctx
    }
}

/// Merges the answers of the sources into the context.
pub fn merge_answers(ctx: &mut AuditContext, answers: Vec<SourceAnswer>)
    ensures
        final(ctx)@ == merged(old(ctx)@, answer_views(answers@)),
{
    let ghost av = answer_views(answers@);
    let ghost errors0 = ctx@.errors;
    let mut all: Vec<Advisory> = Vec::new();
    let mut i: usize = 0;
    proof {
        assert(advisory_views(all@) =~= reported_upto(av, 0));
        assert(ctx@.errors =~= errors0 + failures_upto(av, "Advisory"@, 0));
    }
    while i < answers.len()
        invariant
            i <= answers@.len(),
            av == answer_views(answers@),
            advisory_views(all@) == reported_upto(av, i as nat),
            ctx@ == (AuditContextView {
                errors: errors0 + failures_upto(av, "Advisory"@, i as nat),
                ..old(ctx)@
            }),
        decreases answers@.len() - i,
    {
        let ghost before = advisory_views(all@);
        let ghost before_ctx = ctx@;
        assert(av[i as int] == answers@[i as int]@);
        match &answers[i].result {
            Ok(advs) => {
                let mut copy = copy_advisories(advs);
                let ghost cv = advisory_views(copy@);
                all.append(&mut copy);
                assert(advisory_views(all@) =~= before + cv);
            },
            Err(e) => {
                let mut message = answers[i].source.clone();
                message.append(": ");
                message.append(e.as_str());
                ctx.record_error("Advisory", message.as_str());
                assert(ctx@.errors =~= errors0 + failures_upto(av, "Advisory"@, (i + 1) as nat));
            },
        }
        i = i + 1;
    }
    ctx.advisories = deduplicate_advisories(all);
}

/// Whether `answer` is what source `i` of `sources` may answer about
/// `action`, under that source's name.
pub open spec fn answer_of(
    sources: Seq<Arc<dyn ActionAdvisoryProvider>>,
    i: int,
    action: ActionRefView,
    answer: SourceAnswerView,
) -> bool {
    sources[i].answers(action, answer.result) && sources[i].named(answer.source)
}

/// Whether `answers` are one answer of each of `sources` about `action`,
/// in the order of the sources.
pub open spec fn all_answered(
    sources: Seq<Arc<dyn ActionAdvisoryProvider>>,
    action: ActionRefView,
    answers: Seq<SourceAnswerView>,
) -> bool {
    answers.len() == sources.len() && forall|i: int|
        0 <= i < answers.len() ==> answer_of(sources, i, action, #[trigger] answers[i])
}

/// Asks every configured source about the node.
pub struct AdvisoryStage {
    providers: Vec<Arc<dyn ActionAdvisoryProvider>>,
}

impl AdvisoryStage {
    /// The sources, in the order in which they are asked.
    pub closed spec fn sources(&self) -> Seq<Arc<dyn ActionAdvisoryProvider>> {
        self.providers@
    }

    /// Number of sources.
    pub open spec fn len(&self) -> nat {
        self.sources().len()
    }

    /// A stage over `providers`, asked in this order.
    pub fn new(providers: Vec<Arc<dyn ActionAdvisoryProvider>>) -> (s: AdvisoryStage)
        ensures
            s.sources() == providers@,
    {
        AdvisoryStage { providers }
    }

    /// Asks every source, in order, and returns what each answered, under
    /// the name of the source.
    pub fn ask_all(&self, action: &ActionRef) -> (answers: Vec<SourceAnswer>)
        ensures
            all_answered(self.sources(), action@, answer_views(answers@)),
    {
        let mut answers: Vec<SourceAnswer> = Vec::new();
        let mut i: usize = 0;
        while i < self.providers.len()
            invariant
                i <= self.providers@.len(),
                answers@.len() == i,
                forall|k: int|
                    0 <= k < i ==> answer_of(self.providers@, k, action@, (#[trigger] answers@[k])@),
            decreases self.providers@.len() - i,
        {
            let result = self.providers[i].query(action);
            let source = self.providers[i].name().to_owned();
            let ghost earlier = answers@;
            let answer = SourceAnswer { source, result };
            assert(answer_of(self.providers@, i as int, action@, answer@));
            answers.push(answer);
            assert forall|k: int| 0 <= k < i + 1 implies answer_of(
                self.providers@,
                k,
                action@,
                (#[trigger] answers@[k])@,
            ) by {
                if k < i {
                    assert(answers@[k] == earlier[k]);
                }
            }
            i = i + 1;
        }
        answers
    }
}

impl Stage for AdvisoryStage {
    open spec fn effect(
        &self,
        before: AuditContextView,
        after: AuditContextView,
        r: Result<(), String>,
    ) -> bool {
        r is Ok && exists|answers: Seq<SourceAnswerView>|
            all_answered(self.sources(), before.action, answers) && after == #[trigger] merged(
                before,
                answers,
            )
    }

    open spec fn named(&self, s: Seq<char>) -> bool {
        s == "Advisory"@
    }

    /// Asks every source and merges the answers: the node's advisories
    /// become the merged reports, and every source that failed leaves an
    /// error on the context. The stage itself never fails.
    fn run(&self, ctx: &mut AuditContext) -> (r: Result<(), String>)
        ensures
            r is Ok,
            exists|answers: Seq<SourceAnswerView>|
                all_answered(self.sources(), old(ctx)@.action, answers) && final(ctx)@
                    == #[trigger] merged(old(ctx)@, answers),
    {
        let answers = self.ask_all(&ctx.action);
        let ghost av = answer_views(answers@);
        merge_answers(ctx, answers);
        assert(all_answered(self.sources(), old(ctx)@.action, av) && ctx@ == merged(
            old(ctx)@,
            av,
        ));
        Ok(())
    }

    fn name(&self) -> (n: &'static str)
        ensures
            n@ == "Advisory"@,
    {
        "Advisory"
    }
}

} // verus!
