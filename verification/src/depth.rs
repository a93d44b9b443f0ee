//! How deep the walk may go.
use crate::text::{
    chars_of, decimal, decimal_of, equal_ignoring_case, parse_usize, parsed_usize,
    same_ignoring_case, trim_chars, trimmed,
};
use std::str::FromStr;
use vstd::prelude::*;

verus! {

/// The depth limit of a walk.
#[derive(Debug, Clone, Copy, PartialEq, Eq, Structural)]
pub enum DepthLimit {
    /// Nodes deeper than this are not processed; `0` keeps the roots alone.
    Bounded(usize),
    /// The walk goes on until the graph is exhausted.
    Unlimited,
}

/// A text that names no depth limit.
#[derive(Debug)]
pub struct InvalidDepth {
    /// The text as it was given.
    pub text: String,
}

impl InvalidDepth {
    /// A one-line description.
    pub fn to_string(&self) -> (s: String)
        ensures
            s@ == "invalid depth limit: "@ + self.text@
                + " (expected a non-negative integer or \"unlimited\")"@,
    {
        let mut s = "invalid depth limit: ".to_owned();
        s.append(self.text.as_str());
        s.append(" (expected a non-negative integer or \"unlimited\")");
        s
    }
}

/// The limit that a text names: `unlimited`, in any case, or a
/// non-negative decimal number, white space around either not counting.
pub open spec fn depth_of(s: Seq<char>) -> Option<DepthLimit> {
    let t = trimmed(s);
    if same_ignoring_case(t, "unlimited"@) {
        Some(DepthLimit::Unlimited)
    } else {
        match parsed_usize(t) {
            Some(n) => Some(DepthLimit::Bounded(n)),
            None => None,
        }
    }
}

impl DepthLimit {
    /// The limit as the walker takes it: `None` for no limit.
    pub fn to_max_depth(&self) -> (d: Option<usize>)
        ensures
            d == (match *self {
                DepthLimit::Bounded(n) => Some(n),
                DepthLimit::Unlimited => None,
            }),
    {
        match self {
            DepthLimit::Bounded(n) => Some(*n),
            DepthLimit::Unlimited => None,
        }
    }

    /// The limit as text: the number, or `unlimited`.
    pub fn to_string(&self) -> (s: String)
        ensures
            s@ == (match *self {
                DepthLimit::Bounded(n) => decimal_of(n as nat),
                DepthLimit::Unlimited => "unlimited"@,
            }),
    {
        match self {
            DepthLimit::Bounded(n) => decimal(*n),
            DepthLimit::Unlimited => "unlimited".to_owned(),
        }
    }

    /// Reads a depth limit.
    pub fn parse(s: &str) -> (r: Result<DepthLimit, InvalidDepth>)
        ensures
            match r {
                Ok(d) => depth_of(s@) == Some(d),
                Err(e) => depth_of(s@) is None && e.text@ == s@,
            },
    {
        let t = trim_chars(&chars_of(s));
        let word = chars_of("unlimited");
        if equal_ignoring_case(&t, &word) {
            return Ok(DepthLimit::Unlimited);
        }
        match parse_usize(&t) {
            Some(n) => Ok(DepthLimit::Bounded(n)),
            None => Err(InvalidDepth { text: s.to_owned() }),
        }
    }
}

impl FromStr for DepthLimit {
    type Err = InvalidDepth;

    fn from_str(s: &str) -> (r: Result<DepthLimit, InvalidDepth>)
        ensures
            match r {
                Ok(d) => depth_of(s@) == Some(d),
                Err(e) => depth_of(s@) is None && e.text@ == s@,
            },
    {
        DepthLimit::parse(s)
    }
}

} // verus!
