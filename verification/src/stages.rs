//! The concrete stages. A stage that needs the network is written as its
//! decisions alone: `start` says what to fetch first, `resume` takes the
//! answer and says what to fetch next or how the stage ended. The caller
//! sends the requests.
pub mod advisory;
pub mod composite;
pub mod dependency;
pub mod resolve;
pub mod scan_stage;
pub mod workflow_expand;

use crate::github::Request;
use vstd::prelude::*;

verus! {

/// What a stage wants next.
#[derive(Debug)]
pub enum Step<W> {
    /// The stage has ended, with its outcome.
    Done(Result<(), String>),
    /// The stage needs the answer to a request; `W` says what it waits for.
    Ask(Request, W),
}

} // verus!
