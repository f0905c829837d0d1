//! The viewport controller: map an unbounded row sequence onto a fixed
//! terminal window, move the selection, and keep the per-frame height
//! budget consistent while rows expand to several rendered lines and
//! collapse again.
//!
//! The state is the absolute index of the first visible row, the selection
//! relative to it, the remaining height budget, and a sparse override map
//! from row index to rendered height for the rows currently drawn taller
//! than one line.  Absent rows have height one.  Navigation saturates at
//! both ends instead of wrapping or failing.

use vstd::prelude::*;

verus! {

/// Model of the viewport: offsets and budget as integers, the expanded-row
/// heights as a map from row index to rendered height.
#[verifier::ext_equal]
pub struct ViewportModel {
    pub vertical_offset: int,
    pub selected: int,
    pub height: int,
    pub overrides: Map<int, int>,
}

impl ViewportModel {
    /// The absolute index of the selected row.
    pub open spec fn absolute(&self) -> int {
        self.vertical_offset + self.selected
    }

    /// Every recorded override is taller than a plain row.
    pub open spec fn wf(&self) -> bool {
        forall|k: int| self.overrides.contains_key(k) ==> #[trigger] self.overrides[k] >= 2
    }
}

/// The rendered height of a row: its override, or one line.
pub open spec fn height_of(m: ViewportModel, row: int) -> int {
    if m.overrides.contains_key(row) {
        m.overrides[row]
    } else {
        1
    }
}

/// No two override entries carry the same row.
pub open spec fn entries_unique(s: Seq<(usize, usize)>) -> bool {
    forall|i: int, j: int| 0 <= i < j < s.len() ==> (#[trigger] s[i]).0 != (#[trigger] s[j]).0
}

/// Some entry carries row `k`.
pub open spec fn has_key(s: Seq<(usize, usize)>, k: int) -> bool {
    exists|i: int| 0 <= i < s.len() && (#[trigger] s[i]).0 as int == k
}

/// The height the entry carrying row `k` records.
pub open spec fn entry_value(s: Seq<(usize, usize)>, k: int) -> int {
    let i = choose|i: int| 0 <= i < s.len() && (#[trigger] s[i]).0 as int == k;
    s[i].1 as int
}

/// The override map an entry list denotes.
pub open spec fn overrides_map(s: Seq<(usize, usize)>) -> Map<int, int> {
    Map::new(|k: int| has_key(s, k), |k: int| entry_value(s, k))
}

/// The viewport state: scroll position, relative selection, remaining
/// height budget, and the expanded-row override entries.
pub struct ViewportState {
    pub vertical_offset: usize,
    pub selected: usize,
    pub height: usize,
    pub row_heights: Vec<(usize, usize)>,
}

impl View for ViewportState {
    type V = ViewportModel;

    open spec fn view(&self) -> ViewportModel {
        ViewportModel {
            vertical_offset: self.vertical_offset as int,
            selected: self.selected as int,
            height: self.height as int,
            overrides: overrides_map(self.row_heights@),
        }
    }
}

impl ViewportState {
    /// Entries carry distinct rows and only heights above one line.
    pub open spec fn wf(&self) -> bool {
        &&& entries_unique(self.row_heights@)
        &&& forall|i: int|
            0 <= i < self.row_heights@.len() ==> (#[trigger] self.row_heights@[i]).1 >= 2
    }

    /// A fresh viewport at the top of the corpus with the given budget.
    pub fn new(height: usize) -> (r: Self)
        ensures
            r.wf(),
            r@.vertical_offset == 0,
            r@.selected == 0,
            r@.height == height as int,
            r@.overrides == Map::<int, int>::empty(),
    {
        let r = ViewportState {
            vertical_offset: 0,
            selected: 0,
            height,
            row_heights: Vec::new(),
        };
        proof {
            assert(r@.overrides =~= Map::<int, int>::empty());
        }
        r
    }

    /// Where the entry carrying `row` stands, if one does.
    fn find_entry(&self, row: usize) -> (r: Option<usize>)
        ensures
            match r {
                Some(i) => i < self.row_heights@.len() && self.row_heights@[i as int].0 == row,
                None => forall|t: int|
                    0 <= t < self.row_heights@.len() ==> (#[trigger] self.row_heights@[t]).0
                        != row,
            },
    {
        let mut i: usize = 0;
        while i < self.row_heights.len()
            invariant
                i <= self.row_heights@.len(),
                forall|t: int| 0 <= t < i ==> (#[trigger] self.row_heights@[t]).0 != row,
            decreases self.row_heights@.len() - i,
        {
            if self.row_heights[i].0 == row {
                return Some(i);
            }
            i += 1;
        }
        None
    }

    /// The rendered height of a row: its override, or one line.
    pub fn height_at(&self, row: usize) -> (r: usize)
        requires
            self.wf(),
        ensures
            r as int == height_of(self@, row as int),
            r >= 1,
    {
        let ghost s = self.row_heights@;
        match self.find_entry(row) {
            Some(i) => {
                proof {
                    assert(has_key(s, row as int));
                    let j = choose|j: int| 0 <= j < s.len() && (#[trigger] s[j]).0 as int
                        == row as int;
                    assert(j == i as int);
                    assert(self@.overrides.contains_key(row as int));
                }
                self.row_heights[i].1
            },
            None => {
                proof {
                    assert(!has_key(s, row as int));
                    assert(!self@.overrides.contains_key(row as int));
                }
                1
            },
        }
    }

    /// Record that `row` renders `h` lines tall; the budget is untouched.
    fn set_override(&mut self, row: usize, h: usize)
        requires
            old(self).wf(),
            h >= 2,
        ensures
            final(self).wf(),
            final(self)@.overrides == old(self)@.overrides.insert(row as int, h as int),
            final(self).vertical_offset == old(self).vertical_offset,
            final(self).selected == old(self).selected,
            final(self).height == old(self).height,
    {
        let ghost s0 = self.row_heights@;
        match self.find_entry(row) {
            Some(i) => {
                self.row_heights.swap_remove(i);
                proof {
                    lemma_map_after_removal(s0, self.row_heights@, i as int, row);
                }
            },
            None => {
                proof {
                    assert(overrides_map(s0) =~= overrides_map(s0).remove(row as int));
                }
            },
        }
        let ghost sm = self.row_heights@;
        proof {
            assert forall|t: int| 0 <= t < sm.len() implies (#[trigger] sm[t]).0 != row by {
                if sm[t].0 == row {
                    assert(has_key(sm, row as int));
                    assert(overrides_map(sm).contains_key(row as int));
                }
            }
        }
        self.row_heights.push((row, h));
        proof {
            lemma_map_after_push(sm, self.row_heights@, row, h);
            assert(overrides_map(self.row_heights@) =~= overrides_map(s0).insert(
                row as int,
                h as int,
            ));
        }
    }

    /// Forget any override of `row`; the budget is untouched.
    fn clear_override(&mut self, row: usize)
        requires
            old(self).wf(),
        ensures
            final(self).wf(),
            final(self)@.overrides == old(self)@.overrides.remove(row as int),
            final(self).vertical_offset == old(self).vertical_offset,
            final(self).selected == old(self).selected,
            final(self).height == old(self).height,
    {
        let ghost s0 = self.row_heights@;
        match self.find_entry(row) {
            Some(i) => {
                self.row_heights.swap_remove(i);
                proof {
                    let s1 = self.row_heights@;
                    lemma_map_after_removal(s0, s1, i as int, row);
                }
            },
            None => {
                proof {
                    assert(!has_key(s0, row as int));
                    assert(overrides_map(s0) =~= overrides_map(s0).remove(row as int));
                }
            },
        }
    }
}

/// Appending an entry of a row no entry carries inserts it in the map.
proof fn lemma_map_after_push(s0: Seq<(usize, usize)>, s1: Seq<(usize, usize)>, row: usize, h: usize)
    requires
        entries_unique(s0),
        forall|u: int| 0 <= u < s0.len() ==> (#[trigger] s0[u]).0 != row,
        s1 == s0.push((row, h)),
    ensures
        entries_unique(s1),
        overrides_map(s1) == overrides_map(s0).insert(row as int, h as int),
{
    assert forall|a: int, b: int| 0 <= a < b < s1.len() implies (#[trigger] s1[a]).0 != (
    #[trigger] s1[b]).0 by {
        assert(s1[a] == s0[a]);
        if b < s0.len() {
            assert(s1[b] == s0[b]);
        } else {
            assert(s1[b] == (row, h));
        }
    }
    let m0 = overrides_map(s0);
    let m1 = overrides_map(s1);
    assert forall|k: int| m1.contains_key(k) implies m0.insert(row as int, h as int).contains_key(
        k,
    ) && m1[k] == m0.insert(row as int, h as int)[k] by {
        let i = choose|i: int| 0 <= i < s1.len() && (#[trigger] s1[i]).0 as int == k;
        if k == row as int {
            assert(i == s1.len() - 1);
            assert(m1[k] == h as int);
        } else {
            assert(i < s0.len());
            assert(s1[i] == s0[i]);
            assert((#[trigger] s0[i]).0 as int == k);
            let w = choose|w: int| 0 <= w < s0.len() && (#[trigger] s0[w]).0 as int == k;
            assert(s0[w] == s0[i]);
            assert(m1[k] == s1[i].1 as int);
            assert(m0[k] == s0[w].1 as int);
        }
    }
    assert forall|k: int| m0.insert(row as int, h as int).contains_key(k) implies m1.contains_key(
        k,
    ) by {
        if k == row as int {
            assert((#[trigger] s1[s1.len() - 1]).0 as int == k);
        } else {
            let w = choose|w: int| 0 <= w < s0.len() && (#[trigger] s0[w]).0 as int == k;
            assert(s1[w] == s0[w]);
            assert((#[trigger] s1[w]).0 as int == k);
        }
    }
    assert(m1 =~= m0.insert(row as int, h as int));
}

/// Swap-removing the only entry of `row` removes it from the map.
proof fn lemma_map_after_removal(s0: Seq<(usize, usize)>, s1: Seq<(usize, usize)>, i: int, row: usize)
    requires
        entries_unique(s0),
        0 <= i < s0.len(),
        s0[i].0 == row,
        s1 == s0.update(i, s0.last()).drop_last(),
    ensures
        entries_unique(s1),
        forall|t: int| 0 <= t < s1.len() ==> (#[trigger] s1[t]).1 == s0[entry_origin(s0, i, t)].1
            && s1[t].0 == s0[entry_origin(s0, i, t)].0,
        overrides_map(s1) == overrides_map(s0).remove(row as int),
{
    assert forall|t: int| 0 <= t < s1.len() implies #[trigger] s1[t] == s0[entry_origin(
        s0,
        i,
        t,
    )] by {}
    assert forall|a: int, b: int| 0 <= a < b < s1.len() implies (#[trigger] s1[a]).0 != (
    #[trigger] s1[b]).0 by {
        assert(s1[a] == s0[entry_origin(s0, i, a)]);
        assert(s1[b] == s0[entry_origin(s0, i, b)]);
    }
    let m0 = overrides_map(s0);
    let m1 = overrides_map(s1);
    assert forall|k: int| m1.contains_key(k) implies m0.remove(row as int).contains_key(k)
        && m1[k] == m0.remove(row as int)[k] by {
        let t = choose|t: int| 0 <= t < s1.len() && (#[trigger] s1[t]).0 as int == k;
        let u = entry_origin(s0, i, t);
        assert(s1[t] == s0[u]);
        assert(u != i);
        assert(k != row as int);
        let w = choose|w: int| 0 <= w < s0.len() && (#[trigger] s0[w]).0 as int == k;
        assert(s0[w] == s0[u]);
        assert(m1[k] == s1[t].1 as int);
    }
    assert forall|k: int| m0.remove(row as int).contains_key(k) implies m1.contains_key(k) by {
        let w = choose|w: int| 0 <= w < s0.len() && (#[trigger] s0[w]).0 as int == k;
        assert(w != i);
        if w == s0.len() - 1 {
            assert(i < s0.len() - 1);
            assert(s1[i] == s0[w]);
            assert((#[trigger] s1[i]).0 as int == k);
        } else {
            assert(s1[w] == s0[w]);
            assert((#[trigger] s1[w]).0 as int == k);
        }
    }
    assert(m1 =~= m0.remove(row as int));
}

/// Where an entry of the swap-removed list came from in the original list:
/// position `i` holds what was last, everything else is unmoved.
pub open spec fn entry_origin(s0: Seq<(usize, usize)>, i: int, t: int) -> int {
    if t == i {
        s0.len() - 1
    } else {
        t
    }
}

/// An integer clipped to the value range of `usize`.
pub open spec fn clip_to_usize(v: int) -> int {
    if v < 0 {
        0
    } else if v > usize::MAX as int {
        usize::MAX as int
    } else {
        v
    }
}

/// Move the selection one row down: advance the relative selection while it
/// stays inside the height budget, else scroll by the rendered height of
/// the row leaving at the top.  Saturates at the last row.
pub open spec fn spec_select_next(m: ViewportModel, row_count: int) -> ViewportModel {
    if m.absolute() + 1 < row_count {
        if m.selected + 1 < m.height {
            ViewportModel { selected: m.selected + 1, ..m }
        } else {
            ViewportModel {
                vertical_offset: clip_to_usize(
                    m.vertical_offset + height_of(m, m.vertical_offset),
                ),
                ..m
            }
        }
    } else {
        m
    }
}

/// Move the selection one row up: decrement the relative selection, or at
/// the top of the window scroll back by the rendered height of the row
/// re-entering.  Saturates at row zero.
pub open spec fn spec_select_previous(m: ViewportModel) -> ViewportModel {
    if m.selected == 0 {
        ViewportModel {
            vertical_offset: clip_to_usize(m.vertical_offset - height_of(m, m.vertical_offset)),
            ..m
        }
    } else {
        ViewportModel { selected: m.selected - 1, ..m }
    }
}

/// Select an absolute row, if one is given: a target inside the visible
/// window only moves the relative selection; any other target re-anchors
/// the window so the target becomes the top row.
pub open spec fn spec_select(m: ViewportModel, line: Option<int>) -> ViewportModel {
    match line {
        None => m,
        Some(l) => if m.vertical_offset <= l < m.vertical_offset + m.height {
            ViewportModel { selected: l - m.vertical_offset, ..m }
        } else {
            ViewportModel { vertical_offset: l, selected: 0, ..m }
        },
    }
}

/// Jump to the first row: window and selection both at the top.
pub open spec fn spec_jump_top(m: ViewportModel) -> ViewportModel {
    ViewportModel { vertical_offset: 0, selected: 0, ..m }
}

/// Jump to the last row: the window anchored so the corpus end fills it,
/// the selection on the last row.
pub open spec fn spec_jump_bottom(m: ViewportModel, row_count: int) -> ViewportModel {
    let v = clip_to_usize(row_count - m.height);
    let s = if row_count == 0 || m.height == 0 {
        0
    } else if row_count < m.height {
        row_count - 1
    } else {
        m.height - 1
    };
    ViewportModel { vertical_offset: v, selected: s, ..m }
}

/// Flip a row between collapsed and expanded: expanding a row whose
/// rendered height exceeds one line records the override and takes the
/// extra lines out of the budget; collapsing removes the override and gives
/// them back.
pub open spec fn spec_toggle(m: ViewportModel, row: int, h: int) -> ViewportModel {
    if m.overrides.contains_key(row) {
        ViewportModel {
            overrides: m.overrides.remove(row),
            height: clip_to_usize(m.height + m.overrides[row] - 1),
            ..m
        }
    } else if h > 1 {
        ViewportModel {
            overrides: m.overrides.insert(row, h),
            height: clip_to_usize(m.height - (h - 1)),
            ..m
        }
    } else {
        m
    }
}

/// Correct one visible row's cached height: a tall row records its height
/// and shrinks the budget, a single-line row drops a stale override and
/// gives the budget back.
pub open spec fn spec_apply_height(m: ViewportModel, row: int, h: int) -> ViewportModel {
    if h > 1 {
        ViewportModel {
            overrides: m.overrides.insert(row, h),
            height: clip_to_usize(m.height - (h - 1)),
            ..m
        }
    } else if m.overrides.contains_key(row) {
        ViewportModel {
            overrides: m.overrides.remove(row),
            height: clip_to_usize(m.height + m.overrides[row] - 1),
            ..m
        }
    } else {
        m
    }
}

/// The per-frame pass over the visible slice: row `start + i` gets height
/// `hs[i]`, corrections applied left to right.
pub open spec fn spec_recompute(m: ViewportModel, start: int, hs: Seq<int>, i: int) -> ViewportModel
    decreases hs.len() - i,
{
    if i < 0 || i >= hs.len() {
        m
    } else {
        spec_recompute(spec_apply_height(m, start + i, hs[i]), start, hs, i + 1)
    }
}

impl ViewportState {
    /// The absolute index of the selected row.
    pub fn selected_absolute(&self) -> (r: usize)
        requires
            self@.absolute() <= usize::MAX,
        ensures
            r as int == self@.absolute(),
    {
        self.vertical_offset + self.selected
    }

    /// The half-open range of absolute row indices the window shows,
    /// clipped to the machine's index range.
    pub fn visible_range(&self) -> (r: (usize, usize))
        ensures
            r.0 as int == self@.vertical_offset,
            r.1 as int == clip_to_usize(self@.vertical_offset + self@.height),
    {
        (self.vertical_offset, self.vertical_offset.saturating_add(self.height))
    }

    /// Move the selection one row down, scrolling once it leaves the
    /// budget; a selection on the last row stays put.
    pub fn select_next_line(&mut self, row_count: usize)
        requires
            old(self).wf(),
        ensures
            final(self).wf(),
            final(self)@ == spec_select_next(old(self)@, row_count as int),
    {
        let advance = match self.vertical_offset.checked_add(self.selected) {
            Some(abs) => abs < row_count && row_count - abs > 1,
            None => false,
        };
        if advance {
            if self.selected < usize::MAX && self.selected + 1 < self.height {
                self.selected = self.selected + 1;
            } else {
                let h = self.height_at(self.vertical_offset);
                self.vertical_offset = self.vertical_offset.saturating_add(h);
            }
        }
    }

    /// Move the selection one row up, scrolling back at the window top; a
    /// selection on row zero stays put.
    pub fn select_previous_line(&mut self)
        requires
            old(self).wf(),
        ensures
            final(self).wf(),
            final(self)@ == spec_select_previous(old(self)@),
    {
        if self.selected == 0 {
            let h = self.height_at(self.vertical_offset);
            self.vertical_offset = self.vertical_offset.saturating_sub(h);
        } else {
            self.selected = self.selected - 1;
        }
    }

    /// Select an absolute row, if one is given.
    pub fn select(&mut self, line: Option<usize>)
        requires
            old(self).wf(),
        ensures
            final(self).wf(),
            final(self)@ == spec_select(old(self)@, match line {
                Some(l) => Some(l as int),
                None => None::<int>,
            }),
    {
        match line {
            Some(l) => {
                if l >= self.vertical_offset && l - self.vertical_offset < self.height {
                    self.selected = l - self.vertical_offset;
                } else {
                    self.vertical_offset = l;
                    self.selected = 0;
                }
            },
            None => {},
        }
    }

    /// Jump to the first row.
    pub fn jump_to_top(&mut self)
        requires
            old(self).wf(),
        ensures
            final(self).wf(),
            final(self)@ == spec_jump_top(old(self)@),
    {
        self.vertical_offset = 0;
        self.selected = 0;
    }

    /// Jump to the last row, anchoring the window at the corpus end.
    pub fn jump_to_bottom(&mut self, row_count: usize)
        requires
            old(self).wf(),
        ensures
            final(self).wf(),
            final(self)@ == spec_jump_bottom(old(self)@, row_count as int),
    {
        self.vertical_offset = row_count.saturating_sub(self.height);
        self.selected = if row_count == 0 || self.height == 0 {
            0
        } else if row_count < self.height {
            row_count - 1
        } else {
            self.height - 1
        };
    }

    /// Repeat `select_next_line` once per budget row: one page down.
    pub fn page_down(&mut self, row_count: usize)
        requires
            old(self).wf(),
        ensures
            final(self).wf(),
            final(self)@ == iter_select_next(old(self)@, row_count as int, old(self)@.height),
    {
        let steps = self.height;
        let mut k: usize = 0;
        while k < steps
            invariant
                self.wf(),
                k <= steps,
                self@ == iter_select_next(old(self)@, row_count as int, k as int),
            decreases steps - k,
        {
            self.select_next_line(row_count);
            k += 1;
        }
    }

    /// Repeat `select_previous_line` once per budget row: one page up.
    pub fn page_up(&mut self)
        requires
            old(self).wf(),
        ensures
            final(self).wf(),
            final(self)@ == iter_select_previous(old(self)@, old(self)@.height),
    {
        let steps = self.height;
        let mut k: usize = 0;
        while k < steps
            invariant
                self.wf(),
                k <= steps,
                self@ == iter_select_previous(old(self)@, k as int),
            decreases steps - k,
        {
            self.select_previous_line();
            k += 1;
        }
    }

    /// Flip a row between collapsed and expanded, `rendered_height` being
    /// the height the row takes when wrapped.
    pub fn toggle_wrap(&mut self, row: usize, rendered_height: usize)
        requires
            old(self).wf(),
        ensures
            final(self).wf(),
            final(self)@ == spec_toggle(old(self)@, row as int, rendered_height as int),
    {
        let ghost s = self.row_heights@;
        match self.find_entry(row) {
            Some(i) => {
                let stored = self.row_heights[i].1;
                proof {
                    assert(has_key(s, row as int));
                    let j = choose|j: int| 0 <= j < s.len() && (#[trigger] s[j]).0 as int
                        == row as int;
                    assert(j == i as int);
                    assert(self@.overrides[row as int] == stored as int);
                }
                self.clear_override(row);
                self.height = self.height.saturating_add(stored - 1);
            },
            None => {
                proof {
                    assert(!has_key(s, row as int));
                    assert(!self@.overrides.contains_key(row as int));
                }
                if rendered_height > 1 {
                    self.set_override(row, rendered_height);
                    self.height = self.height.saturating_sub(rendered_height - 1);
                }
            },
        }
    }

    /// Correct one visible row's cached height.
    fn apply_height(&mut self, row: usize, h: usize)
        requires
            old(self).wf(),
        ensures
            final(self).wf(),
            final(self)@ == spec_apply_height(old(self)@, row as int, h as int),
    {
        let ghost s = self.row_heights@;
        if h > 1 {
            self.set_override(row, h);
            self.height = self.height.saturating_sub(h - 1);
        } else {
            match self.find_entry(row) {
                Some(i) => {
                    let stored = self.row_heights[i].1;
                    proof {
                        assert(has_key(s, row as int));
                        let j = choose|j: int| 0 <= j < s.len() && (#[trigger] s[j]).0 as int
                            == row as int;
                        assert(j == i as int);
                        assert(self@.overrides[row as int] == stored as int);
                    }
                    self.clear_override(row);
                    self.height = self.height.saturating_add(stored - 1);
                },
                None => {
                    proof {
                        assert(!has_key(s, row as int));
                        assert(!self@.overrides.contains_key(row as int));
                    }
                },
            }
        }
    }

    /// The per-frame pass: reset the budget to the terminal's base height,
    /// then correct the cached height of every row in the visible slice,
    /// `heights[i]` being the freshly rendered height of row
    /// `vertical_offset + i`.
    pub fn recompute_visible(&mut self, base_height: usize, heights: &Vec<usize>)
        requires
            old(self).wf(),
            old(self)@.vertical_offset + heights@.len() <= usize::MAX,
        ensures
            final(self).wf(),
            final(self)@ == spec_recompute(
                ViewportModel { height: base_height as int, ..old(self)@ },
                old(self)@.vertical_offset,
                heights_view(heights@),
                0,
            ),
    {
        self.height = base_height;
        let start = self.vertical_offset;
        let ghost m0 = self@;
        let ghost hv = heights_view(heights@);
        let mut i: usize = 0;
        while i < heights.len()
            invariant
                self.wf(),
                i <= heights@.len(),
                hv == heights_view(heights@),
                start + heights@.len() <= usize::MAX,
                spec_recompute(m0, start as int, hv, 0) == spec_recompute(
                    self@,
                    start as int,
                    hv,
                    i as int,
                ),
            decreases heights@.len() - i,
        {
            self.apply_height(start + i, heights[i]);
            i += 1;
        }
    }
}

/// The integer values of a sequence of rendered heights.
pub open spec fn heights_view(v: Seq<usize>) -> Seq<int> {
    v.map_values(|x: usize| x as int)
}

/// `spec_select_next` applied `k` times.
pub open spec fn iter_select_next(m: ViewportModel, row_count: int, k: int) -> ViewportModel
    decreases k,
{
    if k <= 0 {
        m
    } else {
        spec_select_next(iter_select_next(m, row_count, k - 1), row_count)
    }
}

/// `spec_select_previous` applied `k` times.
pub open spec fn iter_select_previous(m: ViewportModel, k: int) -> ViewportModel
    decreases k,
{
    if k <= 0 {
        m
    } else {
        spec_select_previous(iter_select_previous(m, k - 1))
    }
}

/// Each upward step keeps the viewport sane and moves the absolute
/// selection at least one row up, until it saturates at row zero.
proof fn lemma_iter_previous_bound(m: ViewportModel, k: int)
    requires
        m.wf(),
        m.vertical_offset >= 0,
        m.selected >= 0,
        k >= 0,
    ensures
        iter_select_previous(m, k).wf(),
        iter_select_previous(m, k).vertical_offset >= 0,
        iter_select_previous(m, k).selected >= 0,
        iter_select_previous(m, k).absolute() <= if m.absolute() - k >= 0 {
            m.absolute() - k
        } else {
            0
        },
    decreases k,
{
    if k > 0 {
        lemma_iter_previous_bound(m, k - 1);
        let p = iter_select_previous(m, k - 1);
        assert(height_of(p, p.vertical_offset) >= 1);
    }
}

/// Law: `jump_to_bottom` followed by one `select_previous_line` per corpus
/// row always lands the absolute selection on row zero.
pub proof fn lemma_jump_bottom_then_previous(m: ViewportModel, row_count: int)
    requires
        m.wf(),
        row_count >= 0,
        m.height >= 0,
    ensures
        iter_select_previous(spec_jump_bottom(m, row_count), row_count).absolute() == 0,
{
    let b = spec_jump_bottom(m, row_count);
    assert(b.absolute() <= row_count);
    lemma_iter_previous_bound(b, row_count);
}

/// Law: toggling a collapsed row twice with the same rendered height
/// restores the viewport exactly, height budget included, as long as the
/// budget does not bottom out or overflow on the way.
pub proof fn lemma_toggle_twice(m: ViewportModel, row: int, h: int)
    requires
        !m.overrides.contains_key(row),
        0 <= m.height <= usize::MAX,
        m.height >= h - 1,
    ensures
        spec_toggle(spec_toggle(m, row, h), row, h) == m,
{
    if h > 1 {
        let once = spec_toggle(m, row, h);
        assert(once.overrides.contains_key(row));
        assert(once.overrides[row] == h);
        assert(once.height == m.height - (h - 1));
        let twice = spec_toggle(once, row, h);
        assert(twice.overrides =~= m.overrides);
        assert(twice.height == m.height);
        assert(twice =~= m);
    }
}

} // verus!
