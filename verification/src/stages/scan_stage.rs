//! The scan stage: language and ecosystems of a node's repository.
use crate::action_ref::ActionRefView;
use crate::context::{same_inputs, with_error, AuditContext, AuditContextView};
use crate::github::{graphql_data, GraphqlError, Reply, ReplyView, Request, RequestView};
use crate::json::{json_document, member, parse_json, JsonTree};
use crate::scan::{build_query, opt_scan, query_text, scan_from_data, scan_of, ScanResultView};
use crate::selection::{ScanSelection, SelectionView};
use crate::stages::Step;
use vstd::prelude::*;

verus! {

/// The stage waits for the answer to the scan query.
#[derive(Debug, Clone, Copy, PartialEq, Eq, Structural)]
pub struct ScanAnswer;

/// Why a scan gave no result.
pub enum ScanFault {
    Transport(Seq<char>),
    Missing,
    NotJson,
    Errors,
    MissingData,
    NoRepository,
}

/// The description of a fault of a scan of `action`.
pub open spec fn scan_fault_text(f: ScanFault, action: ActionRefView) -> Seq<char> {
    match f {
        ScanFault::Transport(m) => m,
        ScanFault::Missing => "GraphQL API returned HTTP 404"@,
        ScanFault::NotJson => "failed to parse GraphQL response"@,
        ScanFault::Errors => "GraphQL errors in response"@,
        ScanFault::MissingData => "missing 'data' field in GraphQL response"@,
        ScanFault::NoRepository => "repository not found: "@ + action.owner + "/"@ + action.repo,
    }
}

/// What the answer to the scan query gives: the scan of the repository
/// under `data`, or the fault. An answer that carries `errors` is a fault.
pub open spec fn scan_outcome(reply: ReplyView) -> Result<ScanResultView, ScanFault> {
    match reply {
        ReplyView::Failed(m) => Err(ScanFault::Transport(m)),
        ReplyView::Missing => Err(ScanFault::Missing),
        ReplyView::Body(text) => match json_document(text) {
            None => Err(ScanFault::NotJson),
            Some(t) => if member(t, "errors"@) is Some {
                Err(ScanFault::Errors)
            } else {
                match member(t, "data"@) {
                    None => Err(ScanFault::MissingData),
                    Some(data) => match member(data, "repository"@) {
                        None => Err(ScanFault::NoRepository),
                        Some(repo) => Ok(scan_of(repo)),
                    },
                }
            },
        },
    }
}

/// Whether the node at `index` of its level is scanned under `selection`:
/// by its position where it has one; else only where every root is.
pub open spec fn wants_scan(selection: SelectionView, index: Option<usize>) -> bool {
    match index {
        Some(i) => match selection {
            SelectionView::Nothing => false,
            SelectionView::All => true,
            SelectionView::Indices(v) => i < usize::MAX && v.contains((i + 1) as usize),
        },
        None => selection is All,
    }
}

/// `ctx` with the result of a scan.
pub open spec fn with_scan(ctx: AuditContextView, scan: ScanResultView) -> AuditContextView {
    AuditContextView { scan: Some(scan), ..ctx }
}

/// Profiles the repository of a node.
pub struct ScanStage {
    selection: ScanSelection,
}

impl ScanStage {
    /// The selection of nodes that are scanned.
    pub closed spec fn selection(&self) -> SelectionView {
        self.selection@
    }

    /// A stage that scans the nodes that `selection` selects.
    pub fn new(selection: ScanSelection) -> (s: ScanStage)
        ensures
            s.selection() == selection@,
    {
        ScanStage { selection }
    }

    /// The name under which failures are recorded.
    pub fn name(&self) -> (n: &'static str)
        ensures
            n@ == "Scan"@,
    {
        "Scan"
    }

    /// Sends the scan query for a node that is selected; for any other
    /// node the stage has nothing to do.
    pub fn start(&self, ctx: &AuditContext) -> (step: Step<ScanAnswer>)
        ensures
            match step {
                Step::Ask(req, _) => wants_scan(self.selection(), ctx@.index) && req@
                    == (RequestView::Graphql {
                    query: query_text(ctx@.action.owner, ctx@.action.repo),
                }),
                Step::Done(r) => !wants_scan(self.selection(), ctx@.index) && r is Ok,
            },
    {
        let wanted = match ctx.index {
            Some(i) => self.selection.should_scan(i),
            None => match &self.selection {
                ScanSelection::All => true,
                _ => false,
            },
        };
        if wanted {
            Step::Ask(
                Request::Graphql {
                    query: build_query(ctx.action.owner.as_str(), ctx.action.repo.as_str()),
                },
                ScanAnswer,
            )
        } else {
            Step::Done(Ok(()))
        }
    }

    /// Takes the answer to the scan query. The scan is stored on the
    /// node; a fault leaves an error on it. The stage itself never fails.
    pub fn resume(&self, waiting: ScanAnswer, reply: Reply, ctx: &mut AuditContext) -> (step: Step<
        ScanAnswer,
    >)
        ensures
            step matches Step::Done(Ok(_)),
            same_inputs(final(ctx)@, old(ctx)@),
            match scan_outcome(reply@) {
                Ok(scan) => final(ctx)@ == with_scan(old(ctx)@, scan),
                Err(f) => final(ctx)@ == with_error(
                    old(ctx)@,
                    "Scan"@,
                    scan_fault_text(f, old(ctx)@.action),
                ),
            },
    {
        match reply {
            Reply::Failed(m) => {
                ctx.record_error("Scan", m.as_str());
            },
            Reply::Missing => {
                ctx.record_error("Scan", "GraphQL API returned HTTP 404");
            },
            Reply::Body(text) => match parse_json(text.as_str()) {
                Err(_) => {
                    ctx.record_error("Scan", "failed to parse GraphQL response");
                },
                Ok(doc) => match graphql_data(&doc) {
                    Err(GraphqlError::Errors) => {
                        ctx.record_error("Scan", "GraphQL errors in response");
                    },
                    Err(GraphqlError::MissingData) => {
                        ctx.record_error("Scan", "missing 'data' field in GraphQL response");
                    },
                    Ok(data) => match scan_from_data(data) {
                        Some(scan) => {
                            ctx.scan = Some(scan);
                        },
                        None => {
                            let mut message = "repository not found: ".to_owned();
                            message.append(ctx.action.owner.as_str());
                            message.append("/");
                            message.append(ctx.action.repo.as_str());
                            ctx.record_error("Scan", message.as_str());
                        },
                    },
                },
            },
        }
        Step::Done(Ok(()))
    }
}

} // verus!
