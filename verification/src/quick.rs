//! Quick-search state: the query string, the search mode, and the match
//! index rebuilt from the corpus on every committed query.
//!
//! Matching is exact, case-sensitive substring search: every column text of
//! every row is scanned left to right for non-overlapping occurrences of the
//! query, and a row with at least one matching column contributes one line
//! record to the index.  Offsets are character offsets into the column text.

use vstd::prelude::*;

use crate::match_index::ColumnModel;
use crate::match_index::LineModel;
use crate::match_index::MatchedColumn;
use crate::match_index::MatchedColumns;
use crate::match_index::MatchedLine;
use crate::match_index::MatchedLines;
use crate::match_index::MatchedPosition;
use crate::match_index::column_keys;
use crate::match_index::columns_view;
use crate::match_index::lines_view;
use crate::match_index::positions_view;
use crate::match_index::line_keys;
use crate::match_index::sorted_keys;

verus! {

/// The query occurs in `text` at character offset `i`.
pub open spec fn is_match_at(text: Seq<char>, query: Seq<char>, i: int) -> bool {
    0 <= i && i + query.len() <= text.len() && text.subrange(i, i + query.len() as int)
        == query
}

/// The non-overlapping occurrences of `query` in `text` from offset `from`
/// on, first-match-first: the scan takes the earliest occurrence and resumes
/// right behind it.  Each element is a half-open `(start, end)` span.
pub open spec fn scan(text: Seq<char>, query: Seq<char>, from: int) -> Seq<(int, int)>
    decreases text.len() - from,
    when 0 <= from && query.len() > 0
{
    if from + query.len() > text.len() {
        Seq::empty()
    } else if is_match_at(text, query, from) {
        seq![(from, from + query.len() as int)] + scan(text, query, from + query.len() as int)
    } else {
        scan(text, query, from + 1)
    }
}

/// The column records of one row: for each cell whose scan is non-empty, one
/// record carrying the cell's index and its spans, ascending by cell index.
pub open spec fn cell_columns(cells: Seq<Seq<char>>, query: Seq<char>, from: int) -> Seq<
    ColumnModel,
>
    decreases cells.len() - from,
    when 0 <= from
{
    if from >= cells.len() {
        Seq::empty()
    } else {
        let ps = scan(cells[from], query, 0);
        let rest = cell_columns(cells, query, from + 1);
        if ps.len() > 0 {
            seq![ColumnModel { index: from, positions: ps }] + rest
        } else {
            rest
        }
    }
}

/// The character sequences of one row's column texts.
pub open spec fn row_view(row: Vec<String>) -> Seq<Seq<char>> {
    row@.map_values(|s: String| s@)
}

/// The whole match index for a corpus and a query: for each row with at
/// least one matching column, one line record, ascending by row index.
pub open spec fn corpus_lines(rows: Seq<Vec<String>>, query: Seq<char>, from: int) -> Seq<
    LineModel,
>
    decreases rows.len() - from,
    when 0 <= from
{
    if from >= rows.len() {
        Seq::empty()
    } else {
        let cols = cell_columns(row_view(rows[from]), query, 0);
        let rest = corpus_lines(rows, query, from + 1);
        if cols.len() > 0 {
            seq![LineModel { index: from, columns: cols }] + rest
        } else {
            rest
        }
    }
}

/// The spans of a scan are proper, lie behind `from`, span exactly the query
/// length, mark real occurrences, and are ascending and non-overlapping.
pub open spec fn scan_props(text: Seq<char>, query: Seq<char>, from: int) -> bool {
    &&& forall|k: int|
        0 <= k < scan(text, query, from).len() ==> {
            let p = #[trigger] scan(text, query, from)[k];
            from <= p.0 && p.1 == p.0 + query.len() && is_match_at(text, query, p.0)
        }
    &&& forall|i: int, j: int|
        0 <= i < j < scan(text, query, from).len() ==> #[trigger] scan(text, query, from)[i].1
            <= #[trigger] scan(text, query, from)[j].0
}

proof fn lemma_scan_props(text: Seq<char>, query: Seq<char>, from: int)
    requires
        0 <= from,
        query.len() > 0,
    ensures
        scan_props(text, query, from),
    decreases text.len() - from,
{
    if from + query.len() > text.len() {
    } else if is_match_at(text, query, from) {
        lemma_scan_props(text, query, from + query.len() as int);
        let head = seq![(from, from + query.len() as int)];
        let rest = scan(text, query, from + query.len() as int);
        let whole = scan(text, query, from);
        assert(whole == head + rest);
        assert forall|k: int| 0 <= k < whole.len() implies {
            let p = #[trigger] whole[k];
            from <= p.0 && p.1 == p.0 + query.len() && is_match_at(text, query, p.0)
        } by {
            if k == 0 {
                assert(whole[0] == head[0]);
            } else {
                assert(whole[k] == rest[k - 1]);
                assert(0 <= k - 1 < rest.len());
                assert(from + query.len() <= rest[k - 1].0);
            }
        }
        assert forall|i: int, j: int|
            0 <= i < j < whole.len() implies #[trigger] whole[i].1 <= #[trigger] whole[j].0 by {
            assert(whole[j] == rest[j - 1]);
            if i == 0 {
                assert(rest[j - 1].0 >= from + query.len());
            } else {
                assert(whole[i] == rest[i - 1]);
                assert(rest[i - 1].1 <= rest[j - 1].0);
            }
        }
    } else {
        lemma_scan_props(text, query, from + 1);
        let rest = scan(text, query, from + 1);
        let whole = scan(text, query, from);
        assert(whole == rest);
        assert forall|k: int| 0 <= k < whole.len() implies {
            let p = #[trigger] whole[k];
            from <= p.0 && p.1 == p.0 + query.len() && is_match_at(text, query, p.0)
        } by {
            assert(whole[k] == rest[k]);
            assert(from + 1 <= rest[k].0);
        }
    }
}

/// The column records of a row are well formed and strictly ascending by
/// column index, each index lying in `[from, cells.len())`.
pub open spec fn cell_columns_props(cells: Seq<Seq<char>>, query: Seq<char>, from: int) -> bool {
    &&& forall|k: int|
        0 <= k < cell_columns(cells, query, from).len() ==> {
            let c = #[trigger] cell_columns(cells, query, from)[k];
            from <= c.index < cells.len() && c.wf()
        }
    &&& forall|i: int, j: int|
        0 <= i < j < cell_columns(cells, query, from).len() ==> #[trigger] cell_columns(
            cells,
            query,
            from,
        )[i].index < #[trigger] cell_columns(cells, query, from)[j].index
}

proof fn lemma_cell_columns_props(cells: Seq<Seq<char>>, query: Seq<char>, from: int)
    requires
        0 <= from,
        query.len() > 0,
    ensures
        cell_columns_props(cells, query, from),
    decreases cells.len() - from,
{
    if from >= cells.len() {
    } else {
        lemma_cell_columns_props(cells, query, from + 1);
        let ps = scan(cells[from], query, 0);
        let rest = cell_columns(cells, query, from + 1);
        let whole = cell_columns(cells, query, from);
        if ps.len() > 0 {
            lemma_scan_props(cells[from], query, 0);
            let head = seq![ColumnModel { index: from, positions: ps }];
            assert(whole == head + rest);
            assert(head[0].wf());
            assert forall|k: int| 0 <= k < whole.len() implies {
                let c = #[trigger] whole[k];
                from <= c.index < cells.len() && c.wf()
            } by {
                if k > 0 {
                    assert(whole[k] == rest[k - 1]);
                    assert(from + 1 <= rest[k - 1].index);
                }
            }
            assert forall|i: int, j: int| 0 <= i < j < whole.len() implies #[trigger] whole[i].index
                < #[trigger] whole[j].index by {
                assert(whole[j] == rest[j - 1]);
                assert(from + 1 <= rest[j - 1].index);
                if i > 0 {
                    assert(whole[i] == rest[i - 1]);
                    assert(rest[i - 1].index < rest[j - 1].index);
                }
            }
        } else {
            assert(whole == rest);
            assert forall|k: int| 0 <= k < whole.len() implies {
                let c = #[trigger] whole[k];
                from <= c.index < cells.len() && c.wf()
            } by {
                assert(whole[k] == rest[k]);
                assert(from + 1 <= rest[k].index);
            }
        }
    }
}

/// The line records of a corpus are well formed and strictly ascending by
/// row index, each index lying in `[from, rows.len())`.
pub open spec fn corpus_lines_props(rows: Seq<Vec<String>>, query: Seq<char>, from: int) -> bool {
    &&& forall|k: int|
        0 <= k < corpus_lines(rows, query, from).len() ==> {
            let l = #[trigger] corpus_lines(rows, query, from)[k];
            from <= l.index < rows.len() && l.wf()
        }
    &&& forall|i: int, j: int|
        0 <= i < j < corpus_lines(rows, query, from).len() ==> #[trigger] corpus_lines(
            rows,
            query,
            from,
        )[i].index < #[trigger] corpus_lines(rows, query, from)[j].index
}

proof fn lemma_corpus_lines_props(rows: Seq<Vec<String>>, query: Seq<char>, from: int)
    requires
        0 <= from,
        query.len() > 0,
    ensures
        corpus_lines_props(rows, query, from),
    decreases rows.len() - from,
{
    if from >= rows.len() {
    } else {
        lemma_corpus_lines_props(rows, query, from + 1);
        let cols = cell_columns(row_view(rows[from]), query, 0);
        let rest = corpus_lines(rows, query, from + 1);
        let whole = corpus_lines(rows, query, from);
        if cols.len() > 0 {
            lemma_cell_columns_props(row_view(rows[from]), query, 0);
            let head = seq![LineModel { index: from, columns: cols }];
            assert(whole == head + rest);
            assert(head[0].wf()) by {
                assert(cell_columns_props(row_view(rows[from]), query, 0));
            }
            assert forall|k: int| 0 <= k < whole.len() implies {
                let l = #[trigger] whole[k];
                from <= l.index < rows.len() && l.wf()
            } by {
                if k > 0 {
                    assert(whole[k] == rest[k - 1]);
                    assert(from + 1 <= rest[k - 1].index);
                }
            }
            assert forall|i: int, j: int| 0 <= i < j < whole.len() implies #[trigger] whole[i].index
                < #[trigger] whole[j].index by {
                assert(whole[j] == rest[j - 1]);
                assert(from + 1 <= rest[j - 1].index);
                if i > 0 {
                    assert(whole[i] == rest[i - 1]);
                    assert(rest[i - 1].index < rest[j - 1].index);
                }
            }
        } else {
            assert(whole == rest);
            assert forall|k: int| 0 <= k < whole.len() implies {
                let l = #[trigger] whole[k];
                from <= l.index < rows.len() && l.wf()
            } by {
                assert(whole[k] == rest[k]);
                assert(from + 1 <= rest[k].index);
            }
        }
    }
}

/// A whole index is well formed: line keys strictly ascending, every record
/// well formed, and every record's column keys strictly ascending.
pub open spec fn index_wf(s: Seq<LineModel>) -> bool {
    &&& sorted_keys(line_keys(s))
    &&& forall|i: int|
        0 <= i < s.len() ==> (#[trigger] s[i]).wf() && sorted_keys(column_keys(s[i].columns))
}

/// The index a corpus and a non-empty query build is well formed.
pub proof fn lemma_corpus_lines_wf(rows: Seq<Vec<String>>, query: Seq<char>)
    requires
        query.len() > 0,
    ensures
        index_wf(corpus_lines(rows, query, 0)),
{
    lemma_corpus_lines_props(rows, query, 0);
    let s = corpus_lines(rows, query, 0);
    assert forall|i: int, j: int| 0 <= i < j < line_keys(s).len() implies line_keys(s)[i]
        < line_keys(s)[j] by {
        assert(s[i].index < s[j].index);
    }
    assert forall|i: int| 0 <= i < s.len() implies (#[trigger] s[i]).wf() && sorted_keys(
        column_keys(s[i].columns),
    ) by {
        let cols = s[i].columns;
        assert forall|a: int, b: int| 0 <= a < b < column_keys(cols).len() implies column_keys(
            cols,
        )[a] < column_keys(cols)[b] by {
            assert(cols[a].index < cols[b].index);
        }
    }
}

/// Whether the query matches `text` starting exactly at character `from`.
fn match_at(text: &str, query: &str, from: usize, n: usize, m: usize) -> (r: bool)
    requires
        n == text@.len(),
        m == query@.len(),
        m > 0,
        from + m <= n,
    ensures
        r == is_match_at(text@, query@, from as int),
{
    let mut j: usize = 0;
    while j < m
        invariant
            j <= m,
            n == text@.len(),
            m == query@.len(),
            from + m <= n,
            forall|k: int| 0 <= k < j ==> text@[from + k] == query@[k],
        decreases m - j,
    {
        if text.get_char(from + j) != query.get_char(j) {
            proof {
                if text@.subrange(from as int, from as int + m as int) == query@ {
                    assert(text@.subrange(from as int, from as int + m as int)[j as int]
                        == query@[j as int]);
                }
            }
            return false;
        }
        j += 1;
    }
    proof {
        assert(text@.subrange(from as int, from as int + m as int) =~= query@);
    }
    true
}

/// All non-overlapping occurrences of `query` in `text`, first-match-first,
/// as half-open character spans in ascending order.
pub fn find_positions(text: &str, query: &str) -> (r: Vec<MatchedPosition>)
    requires
        query@.len() > 0,
    ensures
        positions_view(r@) == scan(text@, query@, 0),
{
    let n = text.unicode_len();
    let m = query.unicode_len();
    let mut r: Vec<MatchedPosition> = Vec::new();
    if m > n {
        assert(positions_view(r@) =~= scan(text@, query@, 0));
        return r;
    }
    let mut from: usize = 0;
    while from <= n - m
        invariant
            n == text@.len(),
            m == query@.len(),
            0 < m <= n,
            from <= n,
            positions_view(r@) + scan(text@, query@, from as int) == scan(text@, query@, 0),
        decreases n - from,
    {
        let ghost prev = positions_view(r@);
        let ghost old_r = r@;
        if match_at(text, query, from, n, m) {
            let pos = (from, from + m);
            r.push(pos);
            proof {
                assert(scan(text@, query@, from as int) == seq![
                    (from as int, from as int + m as int),
                ] + scan(text@, query@, from + m as int));
                assert(r@ == old_r.push(pos));
                assert forall|k: int| 0 <= k < r@.len() implies positions_view(r@)[k] == (prev
                    + seq![(from as int, from as int + m as int)])[k] by {
                    if k < old_r.len() {
                        assert(r@[k] == old_r[k]);
                    } else {
                        assert(r@[k] == pos);
                    }
                }
                assert(positions_view(r@) =~= prev + seq![(from as int, from as int + m as int)]);
                assert(positions_view(r@) + scan(text@, query@, from + m as int) =~= prev + scan(
                    text@,
                    query@,
                    from as int,
                ));
            }
            from = from + m;
        } else {
            proof {
                assert(scan(text@, query@, from as int) == scan(text@, query@, from as int + 1));
            }
            from = from + 1;
        }
    }
    proof {
        assert(scan(text@, query@, from as int) =~= Seq::<(int, int)>::empty());
        assert(positions_view(r@) =~= positions_view(r@) + scan(text@, query@, from as int));
    }
    r
}

/// The column records of one row for a non-empty query.
fn row_columns(row: &Vec<String>, query: &str) -> (r: Vec<MatchedColumn>)
    requires
        query@.len() > 0,
    ensures
        columns_view(r@) == cell_columns(row_view(*row), query@, 0),
{
    let mut cols: Vec<MatchedColumn> = Vec::new();
    let mut c: usize = 0;
    assert(columns_view(cols@) =~= Seq::<ColumnModel>::empty());
    while c < row.len()
        invariant
            query@.len() > 0,
            c <= row@.len(),
            columns_view(cols@) + cell_columns(row_view(*row), query@, c as int) == cell_columns(
                row_view(*row),
                query@,
                0,
            ),
        decreases row@.len() - c,
    {
        let ghost prev = columns_view(cols@);
        let ghost old_cols = cols@;
        let ps = find_positions(row[c].as_str(), query);
        assert(row_view(*row)[c as int] == row@[c as int]@);
        if ps.len() > 0 {
            let col = MatchedColumn::new(c, ps);
            cols.push(col);
            proof {
                let cells = row_view(*row);
                let head = seq![ColumnModel { index: c as int, positions: scan(cells[c as int], query@, 0) }];
                assert(col@ =~= head[0]);
                assert(cell_columns(cells, query@, c as int) == head + cell_columns(
                    cells,
                    query@,
                    c as int + 1,
                ));
                assert(cols@ == old_cols.push(col));
                assert forall|k: int| 0 <= k < cols@.len() implies columns_view(cols@)[k] == (prev
                    + head)[k] by {
                    if k < old_cols.len() {
                        assert(cols@[k] == old_cols[k]);
                    } else {
                        assert(cols@[k] == col);
                    }
                }
                assert(columns_view(cols@) =~= prev + head);
                assert(columns_view(cols@) + cell_columns(cells, query@, c as int + 1) =~= prev
                    + cell_columns(cells, query@, c as int));
            }
        } else {
            proof {
                let cells = row_view(*row);
                assert(scan(cells[c as int], query@, 0).len() == 0);
                assert(cell_columns(cells, query@, c as int) == cell_columns(
                    cells,
                    query@,
                    c as int + 1,
                ));
            }
        }
        c += 1;
    }
    proof {
        assert(columns_view(cols@) =~= columns_view(cols@) + cell_columns(
            row_view(*row),
            query@,
            c as int,
        ));
    }
    cols
}

/// What the user is doing with the search: off, typing a query, or stepping
/// through the results of a committed query.
#[derive(Copy, Clone, PartialEq, Eq, Structural, Debug)]
pub enum Mode {
    Off,
    Input,
    Iteration,
}

/// The whole quick-search state: mode, query string, current match index,
/// and how long the last rebuild took (milliseconds, set by the caller).
pub struct State {
    pub mode: Mode,
    pub input: String,
    pub results: MatchedLines,
    pub elapsed: u128,
}

impl State {
    /// Rebuild the match index from the corpus for the current query and
    /// return the number of matching rows.  An empty query turns the search
    /// off: it clears the index and matches nothing.
    pub fn update(&mut self, texts: &Vec<Vec<String>>) -> (count: usize)
        ensures
            final(self).mode == old(self).mode,
            final(self).input == old(self).input,
            final(self).elapsed == old(self).elapsed,
            old(self).input@.len() == 0 ==> final(self).results@.len() == 0 && count == 0,
            old(self).input@.len() > 0 ==> {
                &&& final(self).results@ == corpus_lines(texts@, old(self).input@, 0)
                &&& index_wf(final(self).results@)
                &&& count == final(self).results@.len()
            },
    {
        if self.input.as_str().is_empty() {
            self.results.clear();
            0
        } else {
            let ghost q = self.input@;
            let query = self.input.clone();
            let mut lines: Vec<MatchedLine> = Vec::new();
            let mut i: usize = 0;
            assert(lines_view(lines@) =~= Seq::<LineModel>::empty());
            while i < texts.len()
                invariant
                    query@ == q,
                    q.len() > 0,
                    i <= texts@.len(),
                    lines_view(lines@) + corpus_lines(texts@, q, i as int) == corpus_lines(
                        texts@,
                        q,
                        0,
                    ),
                decreases texts@.len() - i,
            {
                let ghost prev = lines_view(lines@);
                let ghost old_lines = lines@;
                let cols = row_columns(&texts[i], query.as_str());
                if cols.len() > 0 {
                    let line = MatchedLine::new(i, MatchedColumns { columns: cols });
                    lines.push(line);
                    proof {
                        let colm = cell_columns(row_view(texts@[i as int]), q, 0);
                        let head = seq![LineModel { index: i as int, columns: colm }];
                        assert(line@ =~= head[0]);
                        assert(corpus_lines(texts@, q, i as int) == head + corpus_lines(
                            texts@,
                            q,
                            i as int + 1,
                        ));
                        assert(lines@ == old_lines.push(line));
                        assert forall|k: int| 0 <= k < lines@.len() implies lines_view(lines@)[k]
                            == (prev + head)[k] by {
                            if k < old_lines.len() {
                                assert(lines@[k] == old_lines[k]);
                            } else {
                                assert(lines@[k] == line);
                            }
                        }
                        assert(lines_view(lines@) =~= prev + head);
                        assert(lines_view(lines@) + corpus_lines(texts@, q, i as int + 1) =~= prev
                            + corpus_lines(texts@, q, i as int));
                    }
                } else {
                    proof {
                        assert(cell_columns(row_view(texts@[i as int]), q, 0).len() == 0);
                        assert(corpus_lines(texts@, q, i as int) == corpus_lines(
                            texts@,
                            q,
                            i as int + 1,
                        ));
                    }
                }
                i += 1;
            }
            proof {
                assert(lines_view(lines@) =~= lines_view(lines@) + corpus_lines(
                    texts@,
                    q,
                    i as int,
                ));
                lemma_corpus_lines_wf(texts@, q);
            }
            self.results = MatchedLines { lines };
            self.results.len()
        }
    }

    /// The current match index.
    pub fn results(&self) -> (r: &MatchedLines)
        ensures
            *r == self.results,
    {
        &self.results
    }

    /// The current query string.
    pub fn input(&self) -> (r: &String)
        ensures
            r@ == self.input@,
    {
        &self.input
    }

    /// The query string, for editing; the rest of the state is untouched.
    pub fn input_mut(&mut self) -> (r: &mut String)
        ensures
            *r == old(self).input,
            final(self).input == *final(r),
            final(self).mode == old(self).mode,
            final(self).results == old(self).results,
            final(self).elapsed == old(self).elapsed,
    {
        &mut self.input
    }

    /// The current search mode.
    pub fn mode(&self) -> (r: Mode)
        ensures
            r == self.mode,
    {
        self.mode
    }

    /// Switch search modes.  Entering input mode from off drops the stale
    /// index; leaving input mode for off drops the query.
    pub fn set_mode(&mut self, mode: Mode)
        ensures
            final(self).mode == mode,
            final(self).elapsed == old(self).elapsed,
            (old(self).mode == Mode::Off && mode == Mode::Input) ==> final(self).results@.len()
                == 0,
            !(old(self).mode == Mode::Off && mode == Mode::Input) ==> final(self).results == old(
                self,
            ).results,
            (old(self).mode == Mode::Input && mode == Mode::Off) ==> final(self).input@.len() == 0,
            !(old(self).mode == Mode::Input && mode == Mode::Off) ==> final(self).input == old(
                self,
            ).input,
    {
        if self.mode == Mode::Off && mode == Mode::Input {
            self.results.clear();
        }
        if self.mode == Mode::Input && mode == Mode::Off {
            self.input = String::new();
        }
        self.mode = mode;
    }
}

impl Default for State {
    /// Search off, empty query, empty index.
    fn default() -> (r: Self)
        ensures
            r.mode == Mode::Off,
            r.input@.len() == 0,
            r.results@.len() == 0,
            r.elapsed == 0,
    {
        State {
            mode: Mode::Off,
            input: String::new(),
            results: MatchedLines::default(),
            elapsed: 0,
        }
    }
}

/// Law: rebuilding the index is deterministic.  Two indexes built from the
/// same corpus and the same query have identical ordered contents.
pub proof fn lemma_build_deterministic(
    a: Seq<LineModel>,
    b: Seq<LineModel>,
    rows: Seq<Vec<String>>,
    query: Seq<char>,
)
    requires
        a == corpus_lines(rows, query, 0),
        b == corpus_lines(rows, query, 0),
    ensures
        a == b,
{
}

} // verus!
