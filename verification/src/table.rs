//! Column layout of the log table: the widths the columns take, the
//! horizontal column offset, and how much width is left for the message
//! column.

use vstd::prelude::*;

verus! {

/// How many columns a log row has.
pub const COLUMN_NUMBER: usize = 6;

/// An integer clipped from below to zero.
pub open spec fn clip0(v: int) -> int {
    if v < 0 {
        0
    } else {
        v
    }
}

/// The sum of the widths at positions `[from, to)`, as the layout reads
/// them.
pub open spec fn widths_sum(s: Seq<usize>, from: int, to: int) -> int
    decreases to - from,
{
    if from >= to {
        0
    } else {
        s[from] + widths_sum(s, from + 1, to)
    }
}

/// A width sum never runs negative.
proof fn lemma_widths_sum_nonneg(s: Seq<usize>, from: int, to: int)
    ensures
        widths_sum(s, from, to) >= 0,
    decreases to - from,
{
    if from < to {
        lemma_widths_sum_nonneg(s, from + 1, to);
    }
}

/// The widest cell of column `c` over the first `i` rows; zero over none.
pub open spec fn spec_column_max(rows: Seq<Vec<usize>>, c: int, i: int) -> int
    decreases i,
{
    if i <= 0 {
        0
    } else if rows[i - 1]@[c] as int > spec_column_max(rows, c, i - 1) {
        rows[i - 1]@[c] as int
    } else {
        spec_column_max(rows, c, i - 1)
    }
}

/// The per-column maximum of the rows' display widths: entry `c` is the
/// widest cell in column `c`, or zero when there are no rows.
pub fn max_column_widths(rows: &Vec<Vec<usize>>, column_number: usize) -> (r: Vec<usize>)
    requires
        forall|i: int| 0 <= i < rows@.len() ==> (#[trigger] rows@[i])@.len() == column_number,
    ensures
        r@.len() == column_number,
        forall|c: int|
            0 <= c < column_number ==> r@[c] as int == spec_column_max(
                rows@,
                c,
                rows@.len() as int,
            ),
{
    let mut r: Vec<usize> = Vec::new();
    let mut c: usize = 0;
    while c < column_number
        invariant
            forall|i: int| 0 <= i < rows@.len() ==> (#[trigger] rows@[i])@.len() == column_number,
            c <= column_number,
            r@.len() == c,
            forall|t: int|
                0 <= t < c ==> r@[t] as int == spec_column_max(rows@, t, rows@.len() as int),
        decreases column_number - c,
    {
        let mut best: usize = 0;
        let mut i: usize = 0;
        while i < rows.len()
            invariant
                forall|t: int|
                    0 <= t < rows@.len() ==> (#[trigger] rows@[t])@.len() == column_number,
                c < column_number,
                i <= rows@.len(),
                best as int == spec_column_max(rows@, c as int, i as int),
            decreases rows@.len() - i,
        {
            let w = rows[i][c];
            if w > best {
                best = w;
            }
            i += 1;
        }
        let ghost old_r = r@;
        r.push(best);
        proof {
            assert forall|t: int| 0 <= t < r@.len() implies r@[t] as int == spec_column_max(
                rows@,
                t,
                rows@.len() as int,
            ) by {
                if t < old_r.len() {
                    assert(r@[t] == old_r[t]);
                }
            }
        }
        c += 1;
    }
    r
}

/// The column layout: one width per column, the index of the leftmost
/// column shown, and the terminal width available to the table.
pub struct ColumnLayout {
    pub column_widths: Vec<usize>,
    pub column_offset: usize,
    pub viewport_width: usize,
}

impl ColumnLayout {
    /// The layout is over the fixed column count and shows some column.
    pub open spec fn wf(&self) -> bool {
        &&& self.column_widths@.len() == COLUMN_NUMBER
        &&& self.column_offset < COLUMN_NUMBER
    }

    /// A layout showing all columns of the given widths.
    pub fn new(column_widths: Vec<usize>, viewport_width: usize) -> (r: Self)
        requires
            column_widths@.len() == COLUMN_NUMBER,
        ensures
            r.wf(),
            r.column_widths == column_widths,
            r.column_offset == 0,
            r.viewport_width == viewport_width,
    {
        ColumnLayout { column_widths, column_offset: 0, viewport_width }
    }

    /// Scroll the columns one to the right, saturating at the last column.
    pub fn right(&mut self)
        requires
            old(self).wf(),
        ensures
            final(self).wf(),
            final(self).column_offset as int == if old(self).column_offset + 1 < COLUMN_NUMBER {
                old(self).column_offset + 1
            } else {
                COLUMN_NUMBER - 1
            },
            final(self).column_widths == old(self).column_widths,
            final(self).viewport_width == old(self).viewport_width,
    {
        if self.column_offset + 1 < COLUMN_NUMBER {
            self.column_offset = self.column_offset + 1;
        } else {
            self.column_offset = COLUMN_NUMBER - 1;
        }
    }

    /// Scroll the columns one back to the left, saturating at the first.
    pub fn left(&mut self)
        requires
            old(self).wf(),
        ensures
            final(self).wf(),
            final(self).column_offset as int == clip0(old(self).column_offset - 1),
            final(self).column_widths == old(self).column_widths,
            final(self).viewport_width == old(self).viewport_width,
    {
        self.column_offset = self.column_offset.saturating_sub(1);
    }

    /// The width left for the message column: the viewport width, less one,
    /// less the shown non-message columns' widths, less one spacing column
    /// per shown column; zero when nothing is left.
    pub fn available_message_width(&self) -> (r: usize)
        requires
            self.wf(),
        ensures
            r as int == clip0(
                self.viewport_width as int - 1 - widths_sum(
                    self.column_widths@,
                    self.column_offset as int,
                    COLUMN_NUMBER as int - 1,
                ) - (COLUMN_NUMBER as int - self.column_offset as int),
            ),
    {
        let mut used: usize = 0;
        let mut c: usize = self.column_offset;
        while c < COLUMN_NUMBER - 1
            invariant
                self.wf(),
                self.column_offset <= c <= COLUMN_NUMBER - 1,
                used as int + widths_sum(
                    self.column_widths@,
                    c as int,
                    COLUMN_NUMBER as int - 1,
                ) == widths_sum(
                    self.column_widths@,
                    self.column_offset as int,
                    COLUMN_NUMBER as int - 1,
                ) || used == usize::MAX,
                used == usize::MAX ==> widths_sum(
                    self.column_widths@,
                    self.column_offset as int,
                    COLUMN_NUMBER as int - 1,
                ) >= usize::MAX,
            decreases COLUMN_NUMBER - 1 - c,
    {
            proof {
                lemma_widths_sum_nonneg(
                    self.column_widths@,
                    c as int + 1,
                    COLUMN_NUMBER as int - 1,
                );
            }
            used = used.saturating_add(self.column_widths[c]);
            c += 1;
        }
        let spacing = COLUMN_NUMBER - self.column_offset;
        let out = self.viewport_width.saturating_sub(1).saturating_sub(used).saturating_sub(
            spacing,
        );
        proof {
            assert(widths_sum(
                self.column_widths@,
                c as int,
                COLUMN_NUMBER as int - 1,
            ) == 0);
        }
        out
    }
}

} // verus!
