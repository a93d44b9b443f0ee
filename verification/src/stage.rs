//! The protocol between the pipeline and one unit of enrichment work.
use crate::context::{same_inputs, AuditContext, AuditContextView};
use vstd::prelude::*;

verus! {

/// One unit of work on a node.
///
/// A stage may read any field of the context and fill any output field. It
/// leaves alone what the walker fixed for the node: its action, depth,
/// parent and index. A failure that it can recover from it records on the
/// context and returns `Ok`; what it returns as `Err` the caller records.
pub trait Stage: Send + Sync {
    /// Whether a run of the stage may lead from `before` to `after` with
    /// the outcome `r`. A stage that states nothing of its work leaves
    /// this as it is: every run is possible.
    open spec fn effect(
        &self,
        before: AuditContextView,
        after: AuditContextView,
        r: Result<(), String>,
    ) -> bool {
        true
    }

    /// Whether `s` may be the stage's name. A stage that states nothing
    /// of its name leaves this as it is.
    open spec fn named(&self, s: Seq<char>) -> bool {
        true
    }

    /// Runs the stage on `ctx`. Whatever it changed stays changed, also
    /// where it returns an error.
    fn run(&self, ctx: &mut AuditContext) -> (r: Result<(), String>)
        ensures
            same_inputs(final(ctx)@, old(ctx)@),
            self.effect(old(ctx)@, final(ctx)@, r),
    ;

    /// A stable name, used when a failure is recorded.
    fn name(&self) -> (s: &'static str)
        ensures
            self.named(s@),
    ;
}

} // verus!
