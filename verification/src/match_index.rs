//! The match index: an ordered collection of per-line match records with
//! exact / nearest / next / previous lookups by line index.
//!
//! Records are held in vectors sorted strictly by their index, and every
//! lookup runs as a binary search, so the cost of a query is logarithmic in
//! the number of matching rows.

use vstd::prelude::*;

verus! {

/// One substring occurrence: half-open character offsets into a column's text.
pub type MatchedPosition = (usize, usize);

/// Mathematical model of a [`MatchedColumn`].
#[verifier::ext_equal]
pub struct ColumnModel {
    pub index: int,
    pub positions: Seq<(int, int)>,
}

/// Mathematical model of a [`MatchedLine`].
#[verifier::ext_equal]
pub struct LineModel {
    pub index: int,
    pub columns: Seq<ColumnModel>,
}

impl ColumnModel {
    /// Positions are non-empty, each is a proper span, and they are strictly
    /// ascending and non-overlapping.
    pub open spec fn wf(&self) -> bool {
        &&& self.positions.len() > 0
        &&& forall|i: int| 0 <= i < self.positions.len() ==> self.positions[i].0 < #[trigger] self.positions[i].1
        &&& forall|i: int, j: int|
            0 <= i < j < self.positions.len() ==> #[trigger] self.positions[i].1 <= #[trigger] self.positions[j].0
    }
}

impl LineModel {
    /// Columns are non-empty, each well formed, strictly ascending by index.
    pub open spec fn wf(&self) -> bool {
        &&& self.columns.len() > 0
        &&& forall|i: int| 0 <= i < self.columns.len() ==> (#[trigger] self.columns[i]).wf()
        &&& forall|i: int, j: int|
            0 <= i < j < self.columns.len() ==> #[trigger] self.columns[i].index < #[trigger] self.columns[j].index
    }
}

/// All occurrences of the query within one column of one row.
#[derive(Clone, Debug, PartialEq, Eq)]
pub struct MatchedColumn {
    pub index: usize,
    pub positions: Vec<MatchedPosition>,
}

/// All matching columns of a set of rows, ordered by column index.
#[derive(Clone, Debug, PartialEq, Eq)]
pub struct MatchedColumns {
    pub columns: Vec<MatchedColumn>,
}

/// All matching columns within one row; ordered by `index` alone.
#[derive(Clone, Debug, PartialEq, Eq)]
pub struct MatchedLines {
    pub lines: Vec<MatchedLine>,
}

/// One matching row: its line index and the matching columns.
#[derive(Clone, Debug, PartialEq, Eq)]
pub struct MatchedLine {
    pub index: usize,
    pub columns: MatchedColumns,
}

/// The models of a sequence of match positions.
pub open spec fn positions_view(ps: Seq<MatchedPosition>) -> Seq<(int, int)> {
    ps.map_values(|p: MatchedPosition| (p.0 as int, p.1 as int))
}

/// The models of a sequence of column records.
pub open spec fn columns_view(cs: Seq<MatchedColumn>) -> Seq<ColumnModel> {
    cs.map_values(|c: MatchedColumn| c@)
}

/// The models of a sequence of line records.
pub open spec fn lines_view(ls: Seq<MatchedLine>) -> Seq<LineModel> {
    ls.map_values(|l: MatchedLine| l@)
}

impl View for MatchedColumn {
    type V = ColumnModel;

    open spec fn view(&self) -> ColumnModel {
        ColumnModel { index: self.index as int, positions: positions_view(self.positions@) }
    }
}

impl View for MatchedColumns {
    type V = Seq<ColumnModel>;

    open spec fn view(&self) -> Seq<ColumnModel> {
        columns_view(self.columns@)
    }
}

impl View for MatchedLine {
    type V = LineModel;

    open spec fn view(&self) -> LineModel {
        LineModel { index: self.index as int, columns: self.columns@ }
    }
}

impl View for MatchedLines {
    type V = Seq<LineModel>;

    open spec fn view(&self) -> Seq<LineModel> {
        lines_view(self.lines@)
    }
}

/// The line indices of a sequence of match records, in order.
pub open spec fn line_keys(s: Seq<LineModel>) -> Seq<int> {
    s.map_values(|l: LineModel| l.index)
}

/// The column indices of a sequence of column records, in order.
pub open spec fn column_keys(s: Seq<ColumnModel>) -> Seq<int> {
    s.map_values(|c: ColumnModel| c.index)
}

impl MatchedColumn {
    /// A column record from its index and its (ascending) match positions.
    pub fn new(index: usize, positions: Vec<MatchedPosition>) -> (r: Self)
        ensures
            r@.index == index as int,
            r@.positions == positions_view(positions@),
    {
        MatchedColumn { index, positions }
    }

    /// The match positions within this column, ascending.
    pub fn iter(&self) -> (r: &Vec<MatchedPosition>)
        ensures
            positions_view(r@) == self@.positions,
    {
        &self.positions
    }
}

impl MatchedColumns {
    /// The column records, ascending by column index.
    pub fn iter(&self) -> (r: &Vec<MatchedColumn>)
        ensures
            columns_view(r@) == self@,
    {
        &self.columns
    }

    /// The column record nearest to `index`; ties favor the lower index.
    pub fn nearest(&self, index: usize) -> (r: Option<&MatchedColumn>)
        requires
            sorted_keys(column_keys(self@)),
        ensures
            match r {
                Some(m) => spec_nearest(column_keys(self@), index as int) == Some(m@.index)
                    && self@.contains(m@),
                None => spec_nearest(column_keys(self@), index as int) is None,
            },
    {
        proof {
            assert(keys_of(self.columns@) =~= column_keys(self@));
        }
        let r = nearest_match(&self.columns, index);
        proof {
            if r is Some {
                let m = r->0;
                let k = choose|k: int| 0 <= k < self.columns@.len() && self.columns@[k] == *m;
                assert(self@[k] == m@);
            }
        }
        r
    }

    /// The column record with the largest index strictly below `index`.
    pub fn previous(&self, index: usize) -> (r: Option<&MatchedColumn>)
        requires
            sorted_keys(column_keys(self@)),
        ensures
            match r {
                Some(m) => spec_previous(column_keys(self@), index as int) == Some(m@.index)
                    && self@.contains(m@),
                None => spec_previous(column_keys(self@), index as int) is None,
            },
    {
        proof {
            assert(keys_of(self.columns@) =~= column_keys(self@));
        }
        let r = previous_match(&self.columns, index);
        proof {
            if r is Some {
                let m = r->0;
                let k = choose|k: int| 0 <= k < self.columns@.len() && self.columns@[k] == *m;
                assert(self@[k] == m@);
            }
        }
        r
    }

    /// The column record with the smallest index strictly above `index`.
    pub fn next(&self, index: usize) -> (r: Option<&MatchedColumn>)
        requires
            sorted_keys(column_keys(self@)),
        ensures
            match r {
                Some(m) => spec_next(column_keys(self@), index as int) == Some(m@.index)
                    && self@.contains(m@),
                None => spec_next(column_keys(self@), index as int) is None,
            },
    {
        proof {
            assert(keys_of(self.columns@) =~= column_keys(self@));
        }
        let r = next_match(&self.columns, index);
        proof {
            if r is Some {
                let m = r->0;
                let k = choose|k: int| 0 <= k < self.columns@.len() && self.columns@[k] == *m;
                assert(self@[k] == m@);
            }
        }
        r
    }

    /// The column record at exactly `index`, if that column matched.
    pub fn exact(&self, index: usize) -> (r: Option<&MatchedColumn>)
        requires
            sorted_keys(column_keys(self@)),
        ensures
            match r {
                Some(m) => spec_exact(column_keys(self@), index as int) == Some(m@.index)
                    && m@.index == index as int && self@.contains(m@),
                None => spec_exact(column_keys(self@), index as int) is None,
            },
    {
        proof {
            assert(keys_of(self.columns@) =~= column_keys(self@));
        }
        let r = exact_match(&self.columns, index);
        proof {
            if r is Some {
                let m = r->0;
                let k = choose|k: int| 0 <= k < self.columns@.len() && self.columns@[k] == *m;
                assert(self@[k] == m@);
            }
        }
        r
    }
}

impl Default for MatchedColumns {
    /// An empty set of column records.
    fn default() -> (r: Self)
        ensures
            r@.len() == 0,
    {
        MatchedColumns { columns: Vec::new() }
    }
}

impl MatchedLine {
    /// A line record from its row index and its matching columns.
    pub fn new(index: usize, columns: MatchedColumns) -> (r: Self)
        ensures
            r@.index == index as int,
            r@.columns == columns@,
    {
        MatchedLine { index, columns }
    }

    /// The matching columns of this row, ascending by column index.
    pub fn iter(&self) -> (r: &Vec<MatchedColumn>)
        ensures
            columns_view(r@) == self@.columns,
    {
        &self.columns.columns
    }

    /// The matching columns of this row, as a collection with its own lookups.
    pub fn items(&self) -> (r: &MatchedColumns)
        ensures
            r@ == self@.columns,
    {
        &self.columns
    }
}

impl MatchedLines {
    /// How many rows match.
    pub fn len(&self) -> (r: usize)
        ensures
            r == self@.len(),
    {
        self.lines.len()
    }

    /// Whether no row matches.
    pub fn is_empty(&self) -> (r: bool)
        ensures
            r == (self@.len() == 0),
    {
        self.lines.is_empty()
    }

    /// Drop every match record.
    pub fn clear(&mut self)
        ensures
            final(self)@.len() == 0,
    {
        self.lines.clear();
    }

    /// The line records, ascending by line index.
    pub fn iter(&self) -> (r: &Vec<MatchedLine>)
        ensures
            lines_view(r@) == self@,
    {
        &self.lines
    }

    /// The line record nearest to `index`; ties favor the lower index.
    pub fn nearest(&self, index: usize) -> (r: Option<&MatchedLine>)
        requires
            sorted_keys(line_keys(self@)),
        ensures
            match r {
                Some(m) => spec_nearest(line_keys(self@), index as int) == Some(m@.index)
                    && self@.contains(m@),
                None => spec_nearest(line_keys(self@), index as int) is None,
            },
    {
        proof {
            assert(keys_of(self.lines@) =~= line_keys(self@));
        }
        let r = nearest_match(&self.lines, index);
        proof {
            if r is Some {
                let m = r->0;
                let k = choose|k: int| 0 <= k < self.lines@.len() && self.lines@[k] == *m;
                assert(self@[k] == m@);
            }
        }
        r
    }

    /// The line record with the largest index strictly below `index`.
    pub fn previous(&self, index: usize) -> (r: Option<&MatchedLine>)
        requires
            sorted_keys(line_keys(self@)),
        ensures
            match r {
                Some(m) => spec_previous(line_keys(self@), index as int) == Some(m@.index)
                    && self@.contains(m@),
                None => spec_previous(line_keys(self@), index as int) is None,
            },
    {
        proof {
            assert(keys_of(self.lines@) =~= line_keys(self@));
        }
        let r = previous_match(&self.lines, index);
        proof {
            if r is Some {
                let m = r->0;
                let k = choose|k: int| 0 <= k < self.lines@.len() && self.lines@[k] == *m;
                assert(self@[k] == m@);
            }
        }
        r
    }

    /// The line record with the smallest index strictly above `index`.
    pub fn next(&self, index: usize) -> (r: Option<&MatchedLine>)
        requires
            sorted_keys(line_keys(self@)),
        ensures
            match r {
                Some(m) => spec_next(line_keys(self@), index as int) == Some(m@.index)
                    && self@.contains(m@),
                None => spec_next(line_keys(self@), index as int) is None,
            },
    {
        proof {
            assert(keys_of(self.lines@) =~= line_keys(self@));
        }
        let r = next_match(&self.lines, index);
        proof {
            if r is Some {
                let m = r->0;
                let k = choose|k: int| 0 <= k < self.lines@.len() && self.lines@[k] == *m;
                assert(self@[k] == m@);
            }
        }
        r
    }

    /// The line record at exactly `index`, if that row matched.
    pub fn exact(&self, index: usize) -> (r: Option<&MatchedLine>)
        requires
            sorted_keys(line_keys(self@)),
        ensures
            match r {
                Some(m) => spec_exact(line_keys(self@), index as int) == Some(m@.index)
                    && m@.index == index as int && self@.contains(m@),
                None => spec_exact(line_keys(self@), index as int) is None,
            },
    {
        proof {
            assert(keys_of(self.lines@) =~= line_keys(self@));
        }
        let r = exact_match(&self.lines, index);
        proof {
            if r is Some {
                let m = r->0;
                let k = choose|k: int| 0 <= k < self.lines@.len() && self.lines@[k] == *m;
                assert(self@[k] == m@);
            }
        }
        r
    }
}

impl Default for MatchedLines {
    /// An empty index: no row matches.
    fn default() -> (r: Self)
        ensures
            r@.len() == 0,
    {
        MatchedLines { lines: Vec::new() }
    }
}

/// A record that the ordered lookups can search by: it exposes one integer
/// key, and a zero-payload value for a given key.
pub trait Match: Sized {
    /// The ordering key of this record.
    spec fn spec_index(&self) -> int;

    /// The ordering key, as executable code reads it.
    fn index(&self) -> (r: usize)
        ensures
            r as int == self.spec_index(),
    ;

    /// A record with the given key and empty payload.
    fn sentinel(index: usize) -> (r: Self)
        ensures
            r.spec_index() == index as int,
    ;
}

impl Match for MatchedLine {
    open spec fn spec_index(&self) -> int {
        self.index as int
    }

    fn index(&self) -> (r: usize)
        ensures
            r as int == self.spec_index(),
    {
        self.index
    }

    fn sentinel(index: usize) -> (r: Self)
        ensures
            r.spec_index() == index as int,
    {
        MatchedLine { index, columns: MatchedColumns { columns: Vec::new() } }
    }
}

impl Match for MatchedColumn {
    open spec fn spec_index(&self) -> int {
        self.index as int
    }

    fn index(&self) -> (r: usize)
        ensures
            r as int == self.spec_index(),
    {
        self.index
    }

    fn sentinel(index: usize) -> (r: Self)
        ensures
            r.spec_index() == index as int,
    {
        MatchedColumn { index, positions: Vec::new() }
    }
}

/// The keys of a sequence of records, in the order the records stand.
pub open spec fn keys_of<T: Match>(s: Seq<T>) -> Seq<int> {
    s.map_values(|t: T| t.spec_index())
}

/// Keys are strictly ascending: sorted, with no duplicates.
pub open spec fn sorted_keys(keys: Seq<int>) -> bool {
    forall|i: int, j: int| 0 <= i < j < keys.len() ==> keys[i] < keys[j]
}

/// The first key strictly greater than `index`, in sequence order.
pub open spec fn spec_next(keys: Seq<int>, index: int) -> Option<int>
    decreases keys.len(),
{
    if keys.len() == 0 {
        None
    } else if keys[0] > index {
        Some(keys[0])
    } else {
        spec_next(keys.drop_first(), index)
    }
}

/// The last key strictly less than `index`, in sequence order.
pub open spec fn spec_previous(keys: Seq<int>, index: int) -> Option<int>
    decreases keys.len(),
{
    if keys.len() == 0 {
        None
    } else if keys[keys.len() - 1] < index {
        Some(keys[keys.len() - 1])
    } else {
        spec_previous(keys.drop_last(), index)
    }
}

/// The key equal to `index`, if it is present.
pub open spec fn spec_exact(keys: Seq<int>, index: int) -> Option<int> {
    if keys.contains(index) {
        Some(index)
    } else {
        None
    }
}

/// The key with minimum absolute distance to `index`; on a tie the lower
/// (earlier) key wins.
pub open spec fn spec_nearest(keys: Seq<int>, index: int) -> Option<int> {
    let floor = spec_previous(keys, index + 1);
    let ceil = spec_next(keys, index - 1);
    match (floor, ceil) {
        (None, None) => None,
        (Some(l), None) => Some(l),
        (None, Some(u)) => Some(u),
        (Some(l), Some(u)) => if index - l <= u - index {
            Some(l)
        } else {
            Some(u)
        },
    }
}

/// On strictly ascending keys, `spec_next` returns the key at the partition
/// point `p` between the keys at most `x` and those above `x`.
proof fn lemma_spec_next_at(keys: Seq<int>, x: int, p: int)
    requires
        sorted_keys(keys),
        0 <= p <= keys.len(),
        forall|k: int| 0 <= k < p ==> keys[k] <= x,
        forall|k: int| p <= k < keys.len() ==> keys[k] > x,
    ensures
        spec_next(keys, x) == if p < keys.len() {
            Some(keys[p])
        } else {
            None::<int>
        },
    decreases keys.len(),
{
    if keys.len() == 0 {
    } else if keys[0] > x {
        assert(p == 0);
    } else {
        assert(p >= 1);
        let rest = keys.drop_first();
        assert(forall|k: int| 0 <= k < rest.len() ==> rest[k] == keys[k + 1]);
        lemma_spec_next_at(rest, x, p - 1);
    }
}

/// On strictly ascending keys, `spec_previous` returns the key just below the
/// partition point `p` between the keys below `x` and those at least `x`.
proof fn lemma_spec_previous_at(keys: Seq<int>, x: int, p: int)
    requires
        sorted_keys(keys),
        0 <= p <= keys.len(),
        forall|k: int| 0 <= k < p ==> keys[k] < x,
        forall|k: int| p <= k < keys.len() ==> keys[k] >= x,
    ensures
        spec_previous(keys, x) == if p > 0 {
            Some(keys[p - 1])
        } else {
            None::<int>
        },
    decreases keys.len(),
{
    if keys.len() == 0 {
    } else if keys[keys.len() - 1] < x {
        assert(p == keys.len());
    } else {
        assert(p <= keys.len() - 1);
        let rest = keys.drop_last();
        assert(forall|k: int| 0 <= k < rest.len() ==> rest[k] == keys[k]);
        lemma_spec_previous_at(rest, x, p);
    }
}

/// Number of records whose key lies strictly below `index`: the position of
/// the first record with key at least `index`.  Binary search.
fn lower_bound<T: Match>(matches: &Vec<T>, index: usize) -> (r: usize)
    requires
        sorted_keys(keys_of(matches@)),
    ensures
        r <= matches@.len(),
        forall|k: int| 0 <= k < r ==> keys_of(matches@)[k] < index as int,
        forall|k: int| r <= k < matches@.len() ==> keys_of(matches@)[k] >= index as int,
{
    let mut lo: usize = 0;
    let mut hi: usize = matches.len();
    while lo < hi
        invariant
            lo <= hi <= matches@.len(),
            sorted_keys(keys_of(matches@)),
            forall|k: int| 0 <= k < lo ==> keys_of(matches@)[k] < index as int,
            forall|k: int| hi <= k < matches@.len() ==> keys_of(matches@)[k] >= index as int,
        decreases hi - lo,
    {
        let mid = lo + (hi - lo) / 2;
        assert(keys_of(matches@)[mid as int] == matches@[mid as int].spec_index());
        if matches[mid].index() < index {
            lo = mid + 1;
        } else {
            hi = mid;
        }
    }
    lo
}

/// Number of records whose key is at most `index`: the position of the first
/// record with key strictly above `index`.  Binary search.
fn upper_bound<T: Match>(matches: &Vec<T>, index: usize) -> (r: usize)
    requires
        sorted_keys(keys_of(matches@)),
    ensures
        r <= matches@.len(),
        forall|k: int| 0 <= k < r ==> keys_of(matches@)[k] <= index as int,
        forall|k: int| r <= k < matches@.len() ==> keys_of(matches@)[k] > index as int,
{
    let mut lo: usize = 0;
    let mut hi: usize = matches.len();
    while lo < hi
        invariant
            lo <= hi <= matches@.len(),
            sorted_keys(keys_of(matches@)),
            forall|k: int| 0 <= k < lo ==> keys_of(matches@)[k] <= index as int,
            forall|k: int| hi <= k < matches@.len() ==> keys_of(matches@)[k] > index as int,
        decreases hi - lo,
    {
        let mid = lo + (hi - lo) / 2;
        assert(keys_of(matches@)[mid as int] == matches@[mid as int].spec_index());
        if matches[mid].index() <= index {
            lo = mid + 1;
        } else {
            hi = mid;
        }
    }
    lo
}

/// Absolute distance between two row indices.
pub fn distance(a: usize, b: usize) -> (r: usize)
    ensures
        a <= b ==> r == b - a,
        a > b ==> r == a - b,
{
    if a < b {
        b - a
    } else if a == b {
        0
    } else {
        a - b
    }
}

/// The record whose key has minimum absolute distance to `index`; ties are
/// broken in favor of the lower key.  `None` on an empty collection.
pub fn nearest_match<'a, T: Match>(matches: &'a Vec<T>, index: usize) -> (r: Option<&'a T>)
    requires
        sorted_keys(keys_of(matches@)),
    ensures
        match r {
            Some(m) => spec_nearest(keys_of(matches@), index as int) == Some(m.spec_index())
                && exists|k: int| 0 <= k < matches@.len() && matches@[k] == *m,
            None => spec_nearest(keys_of(matches@), index as int) is None,
        },
{
    let ghost keys = keys_of(matches@);
    let p = lower_bound(matches, index);
    proof {
        lemma_spec_previous_at(keys, index as int + 1, if p < matches@.len()
            && keys[p as int] == index as int {
            p as int + 1
        } else {
            p as int
        });
        lemma_spec_next_at(keys, index as int - 1, p as int);
    }
    if p < matches.len() && matches[p].index() == index {
        // An exact hit is both floor and ceiling: distance zero, lower wins.
        Some(&matches[p])
    } else if p == 0 {
        if matches.len() > 0 {
            Some(&matches[0])
        } else {
            None
        }
    } else if p == matches.len() {
        Some(&matches[p - 1])
    } else {
        let li = matches[p - 1].index();
        let ui = matches[p].index();
        if distance(index, li) <= distance(index, ui) {
            Some(&matches[p - 1])
        } else {
            Some(&matches[p])
        }
    }
}

/// The record with the largest key strictly less than `index`, or `None`.
pub fn previous_match<'a, T: Match>(matches: &'a Vec<T>, index: usize) -> (r: Option<&'a T>)
    requires
        sorted_keys(keys_of(matches@)),
    ensures
        match r {
            Some(m) => spec_previous(keys_of(matches@), index as int) == Some(m.spec_index())
                && exists|k: int| 0 <= k < matches@.len() && matches@[k] == *m,
            None => spec_previous(keys_of(matches@), index as int) is None,
        },
{
    let p = lower_bound(matches, index);
    proof {
        lemma_spec_previous_at(keys_of(matches@), index as int, p as int);
    }
    if p > 0 {
        Some(&matches[p - 1])
    } else {
        None
    }
}

/// The record with the smallest key strictly greater than `index`, or `None`;
/// no wrap-around past the last record.
pub fn next_match<'a, T: Match>(matches: &'a Vec<T>, index: usize) -> (r: Option<&'a T>)
    requires
        sorted_keys(keys_of(matches@)),
    ensures
        match r {
            Some(m) => spec_next(keys_of(matches@), index as int) == Some(m.spec_index())
                && exists|k: int| 0 <= k < matches@.len() && matches@[k] == *m,
            None => spec_next(keys_of(matches@), index as int) is None,
        },
{
    let p = upper_bound(matches, index);
    proof {
        lemma_spec_next_at(keys_of(matches@), index as int, p as int);
    }
    if p < matches.len() {
        Some(&matches[p])
    } else {
        None
    }
}

/// The record whose key equals `index`, or `None`.
pub fn exact_match<'a, T: Match>(matches: &'a Vec<T>, index: usize) -> (r: Option<&'a T>)
    requires
        sorted_keys(keys_of(matches@)),
    ensures
        match r {
            Some(m) => spec_exact(keys_of(matches@), index as int) == Some(m.spec_index())
                && m.spec_index() == index as int
                && exists|k: int| 0 <= k < matches@.len() && matches@[k] == *m,
            None => spec_exact(keys_of(matches@), index as int) is None,
        },
{
    let ghost keys = keys_of(matches@);
    let p = lower_bound(matches, index);
    if p < matches.len() {
        let ki = matches[p].index();
        assert(keys[p as int] == ki as int);
        if ki == index {
            assert(keys.contains(index as int)) by {
                assert(keys[p as int] == index as int);
            }
            Some(&matches[p])
        } else {
            proof {
                assert forall|k: int| 0 <= k < keys.len() implies keys[k] != index as int by {
                    if k > p {
                        assert(keys[k] > keys[p as int]);
                    }
                }
                assert(!keys.contains(index as int));
            }
            None
        }
    } else {
        proof {
            assert forall|k: int| 0 <= k < keys.len() implies keys[k] != index as int by {}
            assert(!keys.contains(index as int));
        }
        None
    }
}

/// Law: adjacent members of a match index are each other's `next` and
/// `previous`.  For keys `a < b` both present with nothing between them, the
/// next match strictly after `a` is `b`, and the previous match strictly
/// before `b` is `a`.
pub proof fn lemma_adjacent_next_previous(keys: Seq<int>, a: int, b: int)
    requires
        sorted_keys(keys),
        keys.contains(a),
        keys.contains(b),
        a < b,
        forall|c: int| a < c < b ==> !keys.contains(c),
    ensures
        spec_next(keys, a) == Some(b),
        spec_previous(keys, b) == Some(a),
{
    let i = choose|i: int| 0 <= i < keys.len() && keys[i] == a;
    let j = choose|j: int| 0 <= j < keys.len() && keys[j] == b;
    assert(i < j);
    assert forall|k: int| 0 <= k < i + 1 implies keys[k] <= a by {
        if k < i {
            assert(keys[k] < keys[i]);
        }
    }
    assert forall|k: int| i + 1 <= k < keys.len() implies keys[k] > a by {
        assert(keys[i] < keys[k]);
    }
    lemma_spec_next_at(keys, a, i + 1);
    assert(keys.contains(keys[i + 1]));
    assert(keys[i + 1] <= keys[j]);
    assert(keys[i + 1] == b);
    assert forall|k: int| 0 <= k < j implies keys[k] < b by {
        assert(keys[k] < keys[j]);
    }
    assert forall|k: int| j <= k < keys.len() implies keys[k] >= b by {
        if j < k {
            assert(keys[j] < keys[k]);
        }
    }
    lemma_spec_previous_at(keys, b, j);
    assert(keys.contains(keys[j - 1]));
    assert(keys[i] <= keys[j - 1]);
    assert(keys[j - 1] == a);
}

/// Law: past the last match, `next` is exhausted; before the first match,
/// `previous` is.  For a key `b` present with no key above it, the next match
/// after `b` is absent; for a key `a` present with no key below it, the
/// previous match before `a` is absent.
pub proof fn lemma_next_previous_at_ends(keys: Seq<int>, a: int, b: int)
    requires
        sorted_keys(keys),
        keys.contains(a),
        keys.contains(b),
        forall|k: int| 0 <= k < keys.len() ==> keys[k] >= a,
        forall|k: int| 0 <= k < keys.len() ==> keys[k] <= b,
    ensures
        spec_next(keys, b) is None,
        spec_previous(keys, a) is None,
{
    lemma_spec_next_at(keys, b, keys.len() as int);
    lemma_spec_previous_at(keys, a, 0);
}

/// Law: `exact` is absent strictly between two consecutive matches, and
/// present exactly on a match.  For keys `a < b` present with nothing between
/// them, every `i` with `a < i < b` has no exact match; a key that is present
/// is its own exact match.
pub proof fn lemma_exact_between_and_on(keys: Seq<int>, a: int, b: int, i: int)
    requires
        sorted_keys(keys),
        keys.contains(a),
        keys.contains(b),
        a < i < b,
        forall|c: int| a < c < b ==> !keys.contains(c),
    ensures
        spec_exact(keys, i) is None,
        spec_exact(keys, a) == Some(a),
        spec_exact(keys, b) == Some(b),
{
}

} // verus!
