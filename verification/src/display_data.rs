//! Per-row display data: the formatted column texts, their display widths,
//! and the wrap flag, with the decisions the renderer needs each frame —
//! how tall a row renders and where highlight spans cut a cell's text.

use vstd::prelude::*;

use crate::match_index::MatchedColumn;
use crate::text_utils::indices_view;
use crate::text_utils::spec_wrap_indices;
use crate::text_utils::wrap_text;

verus! {

/// One row as the renderer sees it: one text and one display width per
/// column, and whether the user has expanded the row's message.
pub struct DisplayData {
    pub texts: Vec<String>,
    pub widths: Vec<usize>,
    pub wrapped: bool,
}

impl DisplayData {
    /// A collapsed row from its column texts and their display widths.
    pub fn new(texts: Vec<String>, widths: Vec<usize>) -> (r: Self)
        requires
            texts@.len() == widths@.len(),
        ensures
            r.texts == texts,
            r.widths == widths,
            !r.wrapped,
    {
        DisplayData { texts, widths, wrapped: false }
    }

    /// Flip the row between collapsed and expanded.
    pub fn toggle_wrap(&mut self)
        ensures
            final(self).wrapped == !old(self).wrapped,
            final(self).texts == old(self).texts,
            final(self).widths == old(self).widths,
    {
        self.wrapped = !self.wrapped;
    }

    /// How many terminal lines this row renders: one while collapsed or
    /// while the message fits the available width, else the line count the
    /// text wrapper produces for the message (the last column's text).
    pub fn rendered_height(&self, available_message_width: usize) -> (r: usize)
        requires
            self.texts@.len() > 0,
            self.widths@.len() == self.texts@.len(),
        ensures
            r >= 1,
            r as int == spec_rendered_height(self, available_message_width as int),
    {
        let last = self.texts.len() - 1;
        if self.wrapped && self.widths[last] > available_message_width {
            let lines = wrap_text(self.texts[last].as_str(), available_message_width);
            lines.len()
        } else {
            1
        }
    }
}

/// The rendered height of a row: one line, unless the row is expanded and
/// its message overflows the width, in which case the wrapper's split count
/// plus one.
pub open spec fn spec_rendered_height(d: &DisplayData, available_message_width: int) -> int {
    let msg = d.texts@[d.texts@.len() - 1]@;
    if d.wrapped && d.widths@[d.widths@.len() - 1] > available_message_width {
        if msg.len() <= available_message_width {
            1
        } else {
            spec_wrap_indices(msg, available_message_width).len() as int + 1
        }
    } else {
        1
    }
}

/// The cut positions that splice highlight styling into one cell's text:
/// each match position's start and end, in order, keeping only offsets
/// strictly inside the text.
pub open spec fn spec_highlight_cuts(ps: Seq<(int, int)>, n: int) -> Seq<int>
    decreases ps.len(),
{
    if ps.len() == 0 {
        Seq::empty()
    } else {
        (if ps[0].0 < n {
            seq![ps[0].0]
        } else {
            Seq::empty()
        }) + (if ps[0].1 < n {
            seq![ps[0].1]
        } else {
            Seq::empty()
        }) + spec_highlight_cuts(ps.drop_first(), n)
    }
}

/// The cut positions for highlighting one matched column within a cell
/// text of `text_len` characters: ascending, strictly inside the text.
pub fn highlight_cut_indices(column: &MatchedColumn, text_len: usize) -> (r: Vec<usize>)
    ensures
        indices_view(r@) == spec_highlight_cuts(column@.positions, text_len as int),
{
    let positions = column.iter();
    let ghost ps = column@.positions;
    let mut r: Vec<usize> = Vec::new();
    let mut i: usize = 0;
    proof {
        assert(ps.skip(0) =~= ps);
    }
    while i < positions.len()
        invariant
            ps == column@.positions,
            crate::match_index::positions_view(positions@) == ps,
            i <= positions@.len(),
            indices_view(r@) + spec_highlight_cuts(ps.skip(i as int), text_len as int)
                == spec_highlight_cuts(ps, text_len as int),
        decreases positions@.len() - i,
    {
        let ghost old_iv = indices_view(r@);
        let ghost suffix = ps.skip(i as int);
        proof {
            assert(suffix[0] == ps[i as int]);
            assert(ps[i as int] == (positions@[i as int].0 as int, positions@[i as int].1 as int));
            assert(suffix.drop_first() =~= ps.skip(i as int + 1));
        }
        let (a, b) = positions[i];
        let ghost mid0 = old_iv;
        if a < text_len {
            r.push(a);
        }
        proof {
            assert(indices_view(r@) =~= mid0 + (if suffix[0].0 < text_len as int {
                seq![suffix[0].0]
            } else {
                Seq::<int>::empty()
            }));
        }
        let ghost mid1 = indices_view(r@);
        if b < text_len {
            r.push(b);
        }
        proof {
            assert(indices_view(r@) =~= mid1 + (if suffix[0].1 < text_len as int {
                seq![suffix[0].1]
            } else {
                Seq::<int>::empty()
            }));
            assert(indices_view(r@) + spec_highlight_cuts(ps.skip(i as int + 1), text_len as int)
                =~= old_iv + spec_highlight_cuts(suffix, text_len as int));
        }
        i += 1;
    }
    proof {
        assert(ps.skip(i as int) =~= Seq::<(int, int)>::empty());
        assert(indices_view(r@) =~= indices_view(r@) + spec_highlight_cuts(
            ps.skip(i as int),
            text_len as int,
        ));
    }
    r
}

} // verus!
