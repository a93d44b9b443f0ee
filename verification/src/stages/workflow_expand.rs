//! Expansion of reusable workflows: the children of a node that names a
//! workflow file are the third-party references of that file.
use crate::context::{
    adds_error, same_inputs, with_children, with_error, AuditContext, AuditContextView,
};
use crate::github::{raw_request, Reply, Request, RequestView};
use crate::stages::Step;
use crate::text::{contains_text, occurs_in};
use crate::workflow::{parse_workflow_refs, third_party_of, workflow_refs_of};
use crate::yaml::yaml_document;
use vstd::prelude::*;

verus! {

/// The stage waits for the workflow file.
#[derive(Debug, Clone, Copy, PartialEq, Eq, Structural)]
pub struct WorkflowFile;

/// Finds the children of a reusable workflow.
pub struct WorkflowExpandStage {}

/// Whether a path names a workflow file: it holds `.github/workflows/`.
pub open spec fn is_workflow_path(path: Option<Seq<char>>) -> bool {
    match path {
        Some(p) => occurs_in(".github/workflows/"@, p),
        None => false,
    }
}

impl WorkflowExpandStage {
    pub fn new() -> WorkflowExpandStage {
        WorkflowExpandStage {}
    }

    /// The name under which failures are recorded.
    pub fn name(&self) -> (n: &'static str)
        ensures
            n@ == "WorkflowExpand"@,
    {
        "WorkflowExpand"
    }

    /// Asks for the workflow file, where the node names one; else the
    /// stage has nothing to do.
    pub fn start(&self, ctx: &AuditContext) -> (step: Step<WorkflowFile>)
        ensures
            match step {
                Step::Ask(req, _) => is_workflow_path(ctx@.action.path) && req@
                    == (RequestView::Raw {
                    owner: ctx@.action.owner,
                    repo: ctx@.action.repo,
                    git_ref: ctx@.action.git_ref,
                    path: ctx@.action.path->0,
                }),
                Step::Done(r) => !is_workflow_path(ctx@.action.path) && r is Ok,
            },
    {
        match &ctx.action.path {
            Some(p) => {
                if contains_text(p.as_str(), ".github/workflows/") {
                    Step::Ask(raw_request(&ctx.action, p.as_str()), WorkflowFile)
                } else {
                    Step::Done(Ok(()))
                }
            },
            None => Step::Done(Ok(())),
        }
    }

    /// Takes the answer for the workflow file. A missing file makes the
    /// node a leaf. A file that is there is read and its third-party
    /// references are appended to the node's children. A request that
    /// failed and a file that cannot be read leave an error on the node.
    /// The stage itself never fails.
    pub fn resume(&self, waiting: WorkflowFile, reply: Reply, ctx: &mut AuditContext) -> (step:
        Step<WorkflowFile>)
        ensures
            step matches Step::Done(Ok(_)),
            same_inputs(final(ctx)@, old(ctx)@),
            match reply@ {
                crate::github::ReplyView::Missing => final(ctx)@ == old(ctx)@,
                crate::github::ReplyView::Failed(m) => final(ctx)@ == with_error(
                    old(ctx)@,
                    "WorkflowExpand"@,
                    m,
                ),
                crate::github::ReplyView::Body(text) => match yaml_document(text) {
                    None => adds_error(old(ctx)@, final(ctx)@, "WorkflowExpand"@),
                    Some(t) => match workflow_refs_of(t) {
                        None => final(ctx)@ == with_error(
                            old(ctx)@,
                            "WorkflowExpand"@,
                            "document has not the expected shape"@,
                        ),
                        Some(refs) => final(ctx)@ == with_children(
                            old(ctx)@,
                            third_party_of(refs),
                        ),
                    },
                },
            },
    {
        match reply {
            Reply::Missing => {},
            Reply::Failed(m) => {
                ctx.record_error("WorkflowExpand", m.as_str());
            },
            Reply::Body(text) => match parse_workflow_refs(text.as_str()) {
                Ok(children) => {
                    ctx.add_children(children);
                },
                Err(e) => {
                    let message = e.to_string();
                    ctx.record_error("WorkflowExpand", message.as_str());
                },
            },
        }
        Step::Done(Ok(()))
    }
}

} // verus!
