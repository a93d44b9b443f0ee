//! Resolution of a ref to the commit it points at.
use crate::action_ref::{ActionRef, ActionRefView, RefType};
use crate::context::{same_inputs, with_error, with_resolved, AuditContext};
use crate::github::{
    api_request, branch_ref, branch_ref_path, extract_commit_sha, fault_text, ref_target_of,
    tag_commit, tag_commit_of, tag_object, tag_object_path, tag_ref, tag_ref_path, RefTarget,
    RefTargetView, Reply, ReplyView, Request, RequestView, ResolveError, ResolveFault,
};
use crate::json::{json_document, parse_json};
use crate::stages::Step;
use vstd::prelude::*;

verus! {

/// What the stage has asked for.
#[derive(Debug, Clone, Copy, PartialEq, Eq, Structural)]
pub enum RefLookup {
    /// The ref as a tag.
    TagRef,
    /// The ref as a branch, asked where there is no such tag.
    BranchRef,
    /// The tag object that an annotated tag points at.
    TagObject,
}

/// What an answer means for the resolution.
pub enum ResolveMove {
    /// The ref points at this commit.
    Resolved(Seq<char>),
    /// The ref cannot be resolved.
    Fail(ResolveFault),
    /// Another API path must be asked.
    Next(Seq<char>, RefLookup),
}

/// What the answer `reply` to the lookup `waiting` means: a missing tag
/// leads to the branch of the same name; a ref that names a commit is
/// resolved; one that names a tag object leads to that object, whose
/// commit resolves the ref; anything else is a fault.
pub open spec fn resolve_move(waiting: RefLookup, reply: ReplyView, action: ActionRefView)
    -> ResolveMove {
    match reply {
        ReplyView::Failed(m) => ResolveMove::Fail(ResolveFault::Transport(m)),
        ReplyView::Missing => match waiting {
            RefLookup::TagRef => ResolveMove::Next(branch_ref_path(action), RefLookup::BranchRef),
            RefLookup::BranchRef => ResolveMove::Fail(ResolveFault::NotFound),
            RefLookup::TagObject => ResolveMove::Fail(ResolveFault::TagMissing),
        },
        ReplyView::Body(text) => match json_document(text) {
            None => ResolveMove::Fail(ResolveFault::NotJson),
            Some(t) => match waiting {
                RefLookup::TagObject => match tag_commit_of(t) {
                    Some(sha) => ResolveMove::Resolved(sha),
                    None => ResolveMove::Fail(ResolveFault::MissingCommit),
                },
                _ => match ref_target_of(t) {
                    Ok(RefTargetView::Commit(sha)) => ResolveMove::Resolved(sha),
                    Ok(RefTargetView::Tag(sha)) => ResolveMove::Next(
                        tag_object_path(action, sha),
                        RefLookup::TagObject,
                    ),
                    Err(f) => ResolveMove::Fail(f),
                },
            },
        },
    }
}

/// The decision of [`resolve_move`], as executable values.
pub enum Decision {
    Resolved(String),
    Fail(ResolveError),
    Next(String, RefLookup),
}

impl View for Decision {
    type V = ResolveMove;

    open spec fn view(&self) -> ResolveMove {
        match *self {
            Decision::Resolved(sha) => ResolveMove::Resolved(sha@),
            Decision::Fail(e) => ResolveMove::Fail(e@),
            Decision::Next(path, w) => ResolveMove::Next(path@, w),
        }
    }
}

/// Decides what an answer means for the resolution of `action`.
pub fn decide(waiting: RefLookup, reply: &Reply, action: &ActionRef) -> (d: Decision)
    ensures
        d@ == resolve_move(waiting, reply@, action@),
{
    match reply {
        Reply::Failed(m) => Decision::Fail(ResolveError::Transport(m.clone())),
        Reply::Missing => match waiting {
            RefLookup::TagRef => Decision::Next(branch_ref(action), RefLookup::BranchRef),
            RefLookup::BranchRef => Decision::Fail(ResolveError::NotFound),
            RefLookup::TagObject => Decision::Fail(ResolveError::TagMissing),
        },
        Reply::Body(text) => match parse_json(text.as_str()) {
            Err(_) => Decision::Fail(ResolveError::NotJson),
            Ok(doc) => match waiting {
                RefLookup::TagObject => match tag_commit(&doc) {
                    Some(sha) => Decision::Resolved(sha),
                    None => Decision::Fail(ResolveError::MissingCommit),
                },
                _ => match extract_commit_sha(&doc) {
                    Ok(RefTarget::Commit(sha)) => Decision::Resolved(sha),
                    Ok(RefTarget::Tag(sha)) => Decision::Next(
                        tag_object(action, sha.as_str()),
                        RefLookup::TagObject,
                    ),
                    Err(e) => Decision::Fail(e),
                },
            },
        },
    }
}

/// Resolves the ref of a node to a commit.
pub struct RefResolveStage {}

impl RefResolveStage {
    pub fn new() -> RefResolveStage {
        RefResolveStage {}
    }

    /// The name under which failures are recorded.
    pub fn name(&self) -> (n: &'static str)
        ensures
            n@ == "RefResolve"@,
    {
        "RefResolve"
    }

    /// A ref that is a commit SHA resolves to itself, with no request. Any
    /// other ref is looked up as a tag first.
    pub fn start(&self, ctx: &mut AuditContext) -> (step: Step<RefLookup>)
        ensures
            same_inputs(final(ctx)@, old(ctx)@),
            if old(ctx)@.action.ref_type == RefType::Sha {
                final(ctx)@ == with_resolved(old(ctx)@, old(ctx)@.action.git_ref)
                    && step matches Step::Done(Ok(_))
            } else {
                final(ctx)@ == old(ctx)@ && (step matches Step::Ask(req, RefLookup::TagRef)
                    && req@ == (RequestView::Api { path: tag_ref_path(old(ctx)@.action) }))
            },
    {
        if ctx.action.ref_type == RefType::Sha {
            let sha = ctx.action.git_ref.clone();
            ctx.set_resolved(sha);
            Step::Done(Ok(()))
        } else {
            Step::Ask(api_request(tag_ref(&ctx.action)), RefLookup::TagRef)
        }
    }

    /// Takes the answer to a lookup. The commit found is stored on the
    /// node; a fault leaves an error on it and the ref unresolved. The
    /// stage itself never fails.
    pub fn resume(&self, waiting: RefLookup, reply: Reply, ctx: &mut AuditContext) -> (step: Step<
        RefLookup,
    >)
        ensures
            same_inputs(final(ctx)@, old(ctx)@),
            match resolve_move(waiting, reply@, old(ctx)@.action) {
                ResolveMove::Resolved(sha) => final(ctx)@ == with_resolved(old(ctx)@, sha)
                    && step matches Step::Done(Ok(_)),
                ResolveMove::Fail(f) => final(ctx)@ == with_error(
                    old(ctx)@,
                    "RefResolve"@,
                    fault_text(f),
                ) && step matches Step::Done(Ok(_)),
                ResolveMove::Next(path, w) => final(ctx)@ == old(ctx)@ && (step matches Step::Ask(
                    req,
                    next,
                ) && next == w && req@ == (RequestView::Api { path })),
            },
    {
        match decide(waiting, &reply, &ctx.action) {
            Decision::Resolved(sha) => {
                ctx.set_resolved(sha);
                Step::Done(Ok(()))
            },
            Decision::Fail(e) => {
                let message = e.to_string();
                ctx.record_error("RefResolve", message.as_str());
                Step::Done(Ok(()))
            },
            Decision::Next(path, w) => Step::Ask(api_request(path), w),
        }
    }
}

} // verus!
