//! The working state of one node while the stages run over it.
use crate::action_ref::{ActionRef, ActionRefView};
use crate::advisory::{advisory_views, Advisory, AdvisoryView};
use crate::deps::{report_views, DependencyReport, DependencyReportView};
use crate::scan::{opt_scan, ScanResult, ScanResultView};
use crate::text::opt_text;
use vstd::prelude::*;

verus! {

/// A failure that a stage met and that did not stop the audit.
#[derive(Debug)]
pub struct StageError {
    /// Name of the stage, or of the provider inside it.
    pub stage: String,
    pub message: String,
}

/// Mathematical value of a [`StageError`].
pub struct StageErrorView {
    pub stage: Seq<char>,
    pub message: Seq<char>,
}

impl View for StageError {
    type V = StageErrorView;

    open spec fn view(&self) -> StageErrorView {
        StageErrorView { stage: self.stage@, message: self.message@ }
    }
}

impl Clone for StageError {
    fn clone(&self) -> (c: StageError)
        ensures
            c@ == self@,
    {
        StageError { stage: self.stage.clone(), message: self.message.clone() }
    }
}

/// The views of a list of stage errors.
pub open spec fn error_views(v: Seq<StageError>) -> Seq<StageErrorView> {
    Seq::new(v.len(), |i: int| v[i]@)
}

/// A copy of a list of errors.
pub fn copy_errors(v: &Vec<StageError>) -> (r: Vec<StageError>)
    ensures
        error_views(r@) == error_views(v@),
{
    let mut r: Vec<StageError> = Vec::new();
    let mut i: usize = 0;
    while i < v.len()
        invariant
            i <= v@.len(),
            r@.len() == i,
            forall|j: int| 0 <= j < i ==> r@[j]@ == v@[j]@,
        decreases v@.len() - i,
    {
        r.push(v[i].clone());
        i = i + 1;
    }
    assert(error_views(r@) =~= error_views(v@));
    r
}

/// The views of a list of references.
pub open spec fn ref_views(v: Seq<ActionRef>) -> Seq<ActionRefView> {
    Seq::new(v.len(), |i: int| v[i]@)
}

/// Per-node state: what the walker fixed when it admitted the node, and
/// what the stages have found so far.
#[derive(Debug)]
pub struct AuditContext {
    /// The node itself.
    pub action: ActionRef,
    /// Distance from a root.
    pub depth: usize,
    /// `raw` of the node that first listed this one; `None` for a root.
    pub parent: Option<String>,
    /// Position in the level that the node was processed with.
    pub index: Option<usize>,
    /// References that expansion stages discovered under this node.
    pub children: Vec<ActionRef>,
    /// Commit that the ref points at.
    pub resolved_ref: Option<String>,
    pub advisories: Vec<Advisory>,
    pub scan: Option<ScanResult>,
    pub dependencies: Vec<DependencyReport>,
    /// Recoverable failures, in the order in which they were met.
    pub errors: Vec<StageError>,
}

/// Mathematical value of an [`AuditContext`].
pub struct AuditContextView {
    pub action: ActionRefView,
    pub depth: nat,
    pub parent: Option<Seq<char>>,
    pub index: Option<usize>,
    pub children: Seq<ActionRefView>,
    pub resolved_ref: Option<Seq<char>>,
    pub advisories: Seq<AdvisoryView>,
    pub scan: Option<ScanResultView>,
    pub dependencies: Seq<DependencyReportView>,
    pub errors: Seq<StageErrorView>,
}

impl View for AuditContext {
    type V = AuditContextView;

    open spec fn view(&self) -> AuditContextView {
        AuditContextView {
            action: self.action@,
            depth: self.depth as nat,
            parent: opt_text(self.parent),
            index: self.index,
            children: ref_views(self.children@),
            resolved_ref: opt_text(self.resolved_ref),
            advisories: advisory_views(self.advisories@),
            scan: opt_scan(self.scan),
            dependencies: report_views(self.dependencies@),
            errors: error_views(self.errors@),
        }
    }
}

/// The context of a node that no stage has touched yet.
pub open spec fn fresh_context(
    action: ActionRefView,
    depth: nat,
    parent: Option<Seq<char>>,
    index: Option<usize>,
) -> AuditContextView {
    AuditContextView {
        action,
        depth,
        parent,
        index,
        children: Seq::empty(),
        resolved_ref: None,
        advisories: Seq::empty(),
        scan: None,
        dependencies: Seq::empty(),
        errors: Seq::empty(),
    }
}

/// Two contexts stand for the same node at the same place of the walk.
pub open spec fn same_inputs(a: AuditContextView, b: AuditContextView) -> bool {
    a.action == b.action && a.depth == b.depth && a.parent == b.parent && a.index == b.index
}

impl AuditContext {
    /// A context on which no stage has run.
    pub fn new(action: ActionRef, depth: usize, parent: Option<String>, index: Option<usize>) -> (c:
        AuditContext)
        ensures
            c@ == fresh_context(action@, depth as nat, opt_text(parent), index),
    {
        let c = AuditContext {
            action,
            depth,
            parent,
            index,
            children: Vec::new(),
            resolved_ref: None,
            advisories: Vec::new(),
            scan: None,
            dependencies: Vec::new(),
            errors: Vec::new(),
        };
        assert(c@.children =~= Seq::empty());
        assert(c@.advisories =~= Seq::empty());
        assert(c@.dependencies =~= Seq::empty());
        assert(c@.errors =~= Seq::empty());
        c
    }

    /// Appends a failure of `stage` to the errors; nothing else changes.
    pub fn record_error(&mut self, stage: &str, error: &str)
        ensures
            final(self)@ == (AuditContextView {
                errors: old(self)@.errors.push(StageErrorView { stage: stage@, message: error@ }),
                ..old(self)@
            }),
    {
        self.errors.push(StageError { stage: stage.to_owned(), message: error.to_owned() });
        assert(final(self)@.errors =~= old(self)@.errors.push(
            StageErrorView { stage: stage@, message: error@ },
        ));
    }
}

/// `ctx` with one more error behind those it has.
pub open spec fn with_error(ctx: AuditContextView, stage: Seq<char>, message: Seq<char>)
    -> AuditContextView {
    AuditContextView { errors: ctx.errors.push(StageErrorView { stage, message }), ..ctx }
}

/// Whether `after` is `before` with one more error of `stage`.
pub open spec fn adds_error(before: AuditContextView, after: AuditContextView, stage: Seq<char>)
    -> bool {
    after.errors.len() == before.errors.len() + 1 && after == with_error(
        before,
        stage,
        after.errors.last().message,
    )
}

/// `ctx` with more children behind those it has.
pub open spec fn with_children(ctx: AuditContextView, more: Seq<ActionRefView>)
    -> AuditContextView {
    AuditContextView { children: ctx.children + more, ..ctx }
}

/// `ctx` with its ref resolved to `sha`.
pub open spec fn with_resolved(ctx: AuditContextView, sha: Seq<char>) -> AuditContextView {
    AuditContextView { resolved_ref: Some(sha), ..ctx }
}

impl AuditContext {
    /// Appends `more` to the children; nothing else changes.
    pub fn add_children(&mut self, more: Vec<ActionRef>)
        ensures
            final(self)@ == with_children(old(self)@, ref_views(more@)),
    {
        let ghost added = ref_views(more@);
        let mut items = more;
        self.children.append(&mut items);
        assert(self@.children =~= old(self)@.children + added);
    }

    /// Sets the commit that the ref points at; nothing else changes.
    pub fn set_resolved(&mut self, sha: String)
        ensures
            final(self)@ == with_resolved(old(self)@, sha@),
    {
        self.resolved_ref = Some(sha);
    }
}

} // verus!
