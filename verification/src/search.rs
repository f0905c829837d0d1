//! The quick-search state as one plain record: mode, query, results and
//! elapsed rebuild time, for callers that hold the pieces together
//! themselves rather than going through the stateful search type.

use vstd::prelude::*;

use crate::match_index::MatchedLines;

verus! {

/// What the user is doing with the quick search.
#[derive(Copy, Clone, PartialEq, Eq, Structural, Debug)]
pub enum QuickSearchMode {
    Off,
    Input,
    Iteration,
}

/// The quick-search state, fields in the open: mode, query string, current
/// match index, and how long the last rebuild took in milliseconds.
pub struct QuickSearchState {
    pub mode: QuickSearchMode,
    pub input: String,
    pub results: MatchedLines,
    pub elapsed: u128,
}

impl Default for QuickSearchState {
    /// Search off, empty query, empty index.
    fn default() -> (r: Self)
        ensures
            r.mode == QuickSearchMode::Off,
            r.input@.len() == 0,
            r.results@.len() == 0,
            r.elapsed == 0,
    {
        QuickSearchState {
            mode: QuickSearchMode::Off,
            input: String::new(),
            results: MatchedLines::default(),
            elapsed: 0,
        }
    }
}

} // verus!
