//! Search-driven navigation: what the input loop does when a query is
//! committed and when the user steps through the matches.
//!
//! Committing a query rebuilds the match index and places the cursor on the
//! match nearest the current row; stepping moves to the next or previous
//! match in document order, with no wrap-around.  A lookup that finds no
//! match is a no-op: the selection stays where it is.

use vstd::prelude::*;

use crate::match_index::Match;
use crate::match_index::MatchedLines;
use crate::match_index::line_keys;
use crate::match_index::sorted_keys;
use crate::match_index::spec_nearest;
use crate::match_index::spec_next;
use crate::match_index::spec_previous;
use crate::quick::Mode;
use crate::quick::State;
use crate::quick::corpus_lines;
use crate::quick::index_wf;
use crate::viewport::ViewportState;
use crate::viewport::spec_select;

verus! {

/// Move the selection to the match nearest the selected row; ties favor
/// the earlier row, and an empty index leaves the selection alone.
pub fn jump_to_nearest_result(view: &mut ViewportState, results: &MatchedLines)
    requires
        old(view).wf(),
        sorted_keys(line_keys(results@)),
        old(view)@.absolute() <= usize::MAX,
    ensures
        final(view).wf(),
        final(view)@ == spec_select(
            old(view)@,
            spec_nearest(line_keys(results@), old(view)@.absolute()),
        ),
{
    let selected = view.selected_absolute();
    let target: Option<usize> = match results.nearest(selected) {
        Some(m) => Some(m.index()),
        None => None,
    };
    view.select(target);
}

/// Move the selection to the first match strictly after the selected row;
/// past the last match nothing moves.
pub fn jump_to_next_result(view: &mut ViewportState, results: &MatchedLines)
    requires
        old(view).wf(),
        sorted_keys(line_keys(results@)),
        old(view)@.absolute() <= usize::MAX,
    ensures
        final(view).wf(),
        final(view)@ == spec_select(
            old(view)@,
            spec_next(line_keys(results@), old(view)@.absolute()),
        ),
{
    let selected = view.selected_absolute();
    let target: Option<usize> = match results.next(selected) {
        Some(m) => Some(m.index()),
        None => None,
    };
    view.select(target);
}

/// Move the selection to the last match strictly before the selected row;
/// before the first match nothing moves.
pub fn jump_to_previous_result(view: &mut ViewportState, results: &MatchedLines)
    requires
        old(view).wf(),
        sorted_keys(line_keys(results@)),
        old(view)@.absolute() <= usize::MAX,
    ensures
        final(view).wf(),
        final(view)@ == spec_select(
            old(view)@,
            spec_previous(line_keys(results@), old(view)@.absolute()),
        ),
{
    let selected = view.selected_absolute();
    let target: Option<usize> = match results.previous(selected) {
        Some(m) => Some(m.index()),
        None => None,
    };
    view.select(target);
}

/// Commit the typed query: switch to iteration mode, rebuild the match
/// index from the corpus, and move the selection to the nearest match.
/// Returns how many rows match.
pub fn commit_search(
    state: &mut State,
    view: &mut ViewportState,
    texts: &Vec<Vec<String>>,
) -> (count: usize)
    requires
        old(view).wf(),
        old(view)@.absolute() <= usize::MAX,
    ensures
        final(state).mode == Mode::Iteration,
        final(state).input == old(state).input,
        final(state).elapsed == old(state).elapsed,
        old(state).input@.len() == 0 ==> final(state).results@.len() == 0 && count == 0,
        old(state).input@.len() > 0 ==> {
            &&& final(state).results@ == corpus_lines(texts@, old(state).input@, 0)
            &&& index_wf(final(state).results@)
            &&& count == final(state).results@.len()
        },
        sorted_keys(line_keys(final(state).results@)),
        final(view).wf(),
        final(view)@ == spec_select(
            old(view)@,
            spec_nearest(line_keys(final(state).results@), old(view)@.absolute()),
        ),
{
    state.set_mode(Mode::Iteration);
    let count = state.update(texts);
    proof {
        if state.results@.len() == 0 {
            assert(line_keys(state.results@).len() == 0);
        }
    }
    jump_to_nearest_result(view, state.results());
    count
}

} // verus!
