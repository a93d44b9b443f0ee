//! Expansion of composite actions: the children of a node are the
//! third-party references of the steps of its action file.
use crate::context::{
    adds_error, ref_views, same_inputs, with_children, with_error, AuditContext,
};
use crate::github::{raw_request, Reply, Request, RequestView};
use crate::stages::Step;
use crate::workflow::{composite_children, parse_composite_action};
use crate::yaml::yaml_document;
use vstd::prelude::*;

verus! {

/// Which file of the action the stage waits for.
#[derive(Debug, Clone, Copy, PartialEq, Eq, Structural)]
pub enum ActionFile {
    /// `action.yml`, asked first.
    Yml,
    /// `action.yaml`, asked where there is no `action.yml`.
    Yaml,
}

/// Finds the children of a composite action.
pub struct CompositeExpandStage {}

impl CompositeExpandStage {
    pub fn new() -> CompositeExpandStage {
        CompositeExpandStage {}
    }

    /// The name under which failures are recorded.
    pub fn name(&self) -> (n: &'static str)
        ensures
            n@ == "CompositeExpand"@,
    {
        "CompositeExpand"
    }

    /// Asks for `action.yml` of the node's repository at its ref.
    pub fn start(&self, ctx: &AuditContext) -> (step: Step<ActionFile>)
        ensures
            step matches Step::Ask(req, ActionFile::Yml) && req@ == (RequestView::Raw {
                owner: ctx@.action.owner,
                repo: ctx@.action.repo,
                git_ref: ctx@.action.git_ref,
                path: "action.yml"@,
            }),
    {
        Step::Ask(raw_request(&ctx.action, "action.yml"), ActionFile::Yml)
    }

    /// Takes the answer for an action file. A missing `action.yml` leads
    /// to `action.yaml`; where that is missing too, the node is a leaf. A
    /// file that is there is read: the children of a composite action are
    /// appended to the node's; any other action leaves the node as it is.
    /// A request that failed and a file that cannot be read leave an error
    /// on the node. The stage itself never fails.
    pub fn resume(&self, waiting: ActionFile, reply: Reply, ctx: &mut AuditContext) -> (step: Step<
        ActionFile,
    >)
        ensures
            same_inputs(final(ctx)@, old(ctx)@),
            match reply {
                Reply::Missing => final(ctx)@ == old(ctx)@ && (match waiting {
                    ActionFile::Yml => (step matches Step::Ask(req, ActionFile::Yaml) && req@
                        == (RequestView::Raw {
                        owner: old(ctx)@.action.owner,
                        repo: old(ctx)@.action.repo,
                        git_ref: old(ctx)@.action.git_ref,
                        path: "action.yaml"@,
                    })),
                    ActionFile::Yaml => step matches Step::Done(Ok(_)),
                }),
                Reply::Failed(m) => final(ctx)@ == with_error(old(ctx)@, "CompositeExpand"@, m@)
                    && step matches Step::Done(Ok(_)),
                Reply::Body(text) => match yaml_document(text@) {
                    None => adds_error(old(ctx)@, final(ctx)@, "CompositeExpand"@)
                        && step matches Step::Done(Ok(_)),
                    Some(t) => match composite_children(t) {
                        None => final(ctx)@ == with_error(
                            old(ctx)@,
                            "CompositeExpand"@,
                            "document has not the expected shape"@,
                        ) && step matches Step::Done(Ok(_)),
                        Some(None) => final(ctx)@ == old(ctx)@ && step matches Step::Done(Ok(_)),
                        Some(Some(children)) => final(ctx)@ == with_children(
                            old(ctx)@,
                            children,
                        ) && step matches Step::Done(Ok(_)),
                    },
                },
            },
    {
        match reply {
            Reply::Missing => match waiting {
                ActionFile::Yml => Step::Ask(
                    raw_request(&ctx.action, "action.yaml"),
                    ActionFile::Yaml,
                ),
                ActionFile::Yaml => Step::Done(Ok(())),
            },
            Reply::Failed(m) => {
                ctx.record_error("CompositeExpand", m.as_str());
                Step::Done(Ok(()))
            },
            Reply::Body(text) => match parse_composite_action(text.as_str()) {
                Ok(Some(children)) => {
                    ctx.add_children(children);
                    Step::Done(Ok(()))
                },
                Ok(None) => Step::Done(Ok(())),
                Err(e) => {
                    let message = e.to_string();
                    ctx.record_error("CompositeExpand", message.as_str());
                    Step::Done(Ok(()))
                },
            },
        }
    }
}

} // verus!
