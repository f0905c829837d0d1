//! The text wrapper: turn one long string into lines that fit a display
//! width, breaking only at word boundaries, never mid-word.
//!
//! The split positions are found by walking the word-boundary positions in
//! ascending order with a running width threshold: the threshold starts at
//! the maximum width, and whenever a boundary position exceeds it, the
//! previous boundary becomes a split and the threshold advances by one more
//! width.  The string's end counts as a final boundary.  A single word
//! longer than the width is not force-split: it is emitted as one oversized
//! line, and a line may likewise run past the width when the first boundary
//! beyond the threshold lies far behind it.  All positions are character
//! offsets.

use unicode_segmentation::UnicodeSegmentation;
use vstd::prelude::*;

verus! {

/// The character sequences of a sequence of strings.
pub open spec fn texts_view(v: Seq<String>) -> Seq<Seq<char>> {
    v.map_values(|s: String| s@)
}

/// The integer values of a sequence of indices.
pub open spec fn indices_view(v: Seq<usize>) -> Seq<int> {
    v.map_values(|x: usize| x as int)
}

/// The concatenation of a sequence of character sequences.
pub open spec fn concat_of(pieces: Seq<Seq<char>>) -> Seq<char>
    decreases pieces.len(),
{
    if pieces.len() == 0 {
        Seq::empty()
    } else {
        pieces[0] + concat_of(pieces.drop_first())
    }
}

/// What `unicode_segmentation` splits a string into on word boundaries: a
/// partition of the string determined by its characters alone.
pub uninterp spec fn word_pieces_of(text: Seq<char>) -> Seq<Seq<char>>;

/// Relies on `unicode_segmentation::UnicodeSegmentation::split_word_bounds`:
/// the pieces depend on the string alone, they are non-empty, and their
/// concatenation is exactly the original string (stated in the crate's
/// documentation of that function).
#[verifier::external_body]
fn split_word_bounds(text: &str) -> (r: Vec<String>)
    ensures
        texts_view(r@) == word_pieces_of(text@),
        concat_of(texts_view(r@)) == text@,
        forall|k: int| 0 <= k < r@.len() ==> (#[trigger] r@[k])@.len() > 0,
{
    text.split_word_bounds().map(|w| w.to_owned()).collect()
}

/// Total character length of the first `k` pieces.
pub open spec fn len_prefix(pieces: Seq<Seq<char>>, k: int) -> int
    decreases k,
{
    if k <= 0 {
        0
    } else {
        len_prefix(pieces, k - 1) + pieces[k - 1].len()
    }
}

/// The word-boundary positions of a string, ascending: the start offset of
/// each word piece, and the string's end as a final boundary.
pub open spec fn word_bound_positions(text: Seq<char>) -> Seq<int> {
    Seq::new(word_pieces_of(text).len() + 1, |k: int| len_prefix(word_pieces_of(text), k))
}

/// The split positions that the threshold walk emits over the boundary
/// positions `bounds`, given the pending boundary `prev` and the current
/// width threshold.
pub open spec fn wrap_splits(
    bounds: Seq<int>,
    prev: Option<int>,
    threshold: int,
    max_width: int,
) -> Seq<int>
    decreases bounds.len(),
{
    if bounds.len() == 0 {
        Seq::empty()
    } else {
        let pos = bounds[0];
        if pos > threshold {
            (match prev {
                Some(p) => seq![p],
                None => Seq::empty(),
            }) + wrap_splits(bounds.drop_first(), Some(pos), threshold + max_width, max_width)
        } else {
            wrap_splits(bounds.drop_first(), Some(pos), threshold, max_width)
        }
    }
}

/// Prefix lengths grow with `k`; strictly, when every piece is non-empty.
proof fn lemma_len_prefix_mono(pieces: Seq<Seq<char>>, a: int, b: int)
    requires
        0 <= a <= b <= pieces.len(),
        forall|k: int| 0 <= k < pieces.len() ==> (#[trigger] pieces[k]).len() > 0,
    ensures
        len_prefix(pieces, a) <= len_prefix(pieces, b),
        a < b ==> len_prefix(pieces, a) < len_prefix(pieces, b),
    decreases b - a,
{
    if a < b {
        lemma_len_prefix_mono(pieces, a, b - 1);
        assert(pieces[b - 1].len() > 0);
    }
}

/// The length of a concatenation is the total length of its pieces.
proof fn lemma_concat_len(pieces: Seq<Seq<char>>)
    ensures
        concat_of(pieces).len() == len_prefix(pieces, pieces.len() as int),
    decreases pieces.len(),
{
    if pieces.len() > 0 {
        let rest = pieces.drop_first();
        lemma_concat_len(rest);
        lemma_len_prefix_shift(pieces, pieces.len() as int);
    }
}

/// Prefix lengths of a dropped-head sequence shift by the head's length.
proof fn lemma_len_prefix_shift(pieces: Seq<Seq<char>>, k: int)
    requires
        1 <= k <= pieces.len(),
    ensures
        len_prefix(pieces, k) == pieces[0].len() + len_prefix(pieces.drop_first(), k - 1),
    decreases k,
{
    if k == 1 {
        assert(len_prefix(pieces, 0) == 0);
        assert(len_prefix(pieces.drop_first(), 0) == 0);
    } else {
        lemma_len_prefix_shift(pieces, k - 1);
        assert(pieces.drop_first()[k - 2] == pieces[k - 1]);
        assert(len_prefix(pieces, k) == len_prefix(pieces, k - 1) + pieces[k - 1].len());
        assert(len_prefix(pieces.drop_first(), k - 1) == len_prefix(pieces.drop_first(), k - 2)
            + pieces.drop_first()[k - 2].len());
    }
}

/// The split positions the wrapper emits for `text` at width `max_width`:
/// the threshold walk over the string's word-boundary positions.
pub open spec fn spec_wrap_indices(text: Seq<char>, max_width: int) -> Seq<int> {
    wrap_splits(word_bound_positions(text), None, max_width, max_width)
}

/// The word-boundary split positions for wrapping `text` to `max_width`:
/// ascending positions strictly inside the string, empty when the text
/// already fits.
pub fn wrap_indices(text: &str, max_width: usize) -> (r: Vec<usize>)
    ensures
        indices_view(r@) == spec_wrap_indices(text@, max_width as int),
        forall|a: int, b: int| 0 <= a <= b < r@.len() ==> r@[a] <= r@[b],
        forall|k: int| 0 <= k < r@.len() ==> r@[k] < text@.len(),
{
    let n = text.unicode_len();
    let pieces = split_word_bounds(text);
    let ghost pv = word_pieces_of(text@);
    proof {
        assert forall|k: int| 0 <= k < pv.len() implies (#[trigger] pv[k]).len() > 0 by {
            assert(pv[k] == texts_view(pieces@)[k]);
            assert(pv[k] == pieces@[k]@);
        }
        assert(concat_of(pv) == text@);
        lemma_concat_len(pv);
    }
    let mut bounds: Vec<usize> = Vec::new();
    let mut off: usize = 0;
    let mut i: usize = 0;
    while i < pieces.len()
        invariant
            texts_view(pieces@) == pv,
            concat_of(pv) == text@,
            forall|k: int| 0 <= k < pv.len() ==> (#[trigger] pv[k]).len() > 0,
            n == text@.len(),
            len_prefix(pv, pv.len() as int) == n as int,
            i <= pieces@.len(),
            off as int == len_prefix(pv, i as int),
            bounds@.len() == i,
            forall|k: int| 0 <= k < i ==> bounds@[k] as int == len_prefix(pv, k),
        decreases pieces@.len() - i,
    {
        bounds.push(off);
        let plen = pieces[i].as_str().unicode_len();
        assert(pv[i as int] == pieces@[i as int]@);
        proof {
            lemma_len_prefix_mono(pv, i as int + 1, pv.len() as int);
        }
        off = off + plen;
        i = i + 1;
    }
    bounds.push(off);
    assert(off == n);
    let ghost bv = word_bound_positions(text@);
    proof {
        assert(indices_view(bounds@) =~= bv);
    }
    let mut r: Vec<usize> = Vec::new();
    let mut prev: Option<usize> = None;
    let mut threshold: u128 = max_width as u128;
    let mut j: usize = 0;
    proof {
        assert(bv.skip(0) =~= bv);
    }
    while j < bounds.len()
        invariant
            indices_view(bounds@) == bv,
            bounds@.len() == bv.len() == pv.len() + 1,
            forall|k: int| 0 <= k < bounds@.len() ==> bounds@[k] as int == len_prefix(pv, k),
            forall|k: int| 0 <= k < pv.len() ==> (#[trigger] pv[k]).len() > 0,
            n == text@.len(),
            len_prefix(pv, pv.len() as int) == n as int,
            j <= bounds@.len(),
            threshold <= n as u128 + max_width as u128,
            indices_view(r@) + wrap_splits(bv.skip(j as int), match prev {
                Some(p) => Some(p as int),
                None => None,
            }, threshold as int, max_width as int) == wrap_splits(
                bv,
                None,
                max_width as int,
                max_width as int,
            ),
            match prev {
                Some(p) => j >= 1 && p as int == bv[j - 1],
                None => j == 0 && r@.len() == 0 && threshold == max_width as u128,
            },
            forall|a: int, b: int| 0 <= a <= b < r@.len() ==> r@[a] <= r@[b],
            forall|k: int| 0 <= k < r@.len() ==> r@[k] < n && (prev is Some ==> r@[k] <= prev->0),
        decreases bounds@.len() - j,
    {
        let pos = bounds[j];
        let ghost old_r = r@;
        let ghost suffix = bv.skip(j as int);
        proof {
            assert(suffix[0] == bv[j as int]);
            assert(suffix.drop_first() =~= bv.skip(j as int + 1));
            if j >= 1 {
                lemma_len_prefix_mono(pv, j as int - 1, j as int);
                lemma_len_prefix_mono(pv, j as int - 1, pv.len() as int);
            }
            lemma_len_prefix_mono(pv, j as int, pv.len() as int);
        }
        if (pos as u128) > threshold {
            match prev {
                Some(p) => {
                    proof {
                        lemma_len_prefix_mono(pv, j as int - 1, pv.len() as int);
                        assert forall|k: int| 0 <= k < old_r.len() implies old_r[k] <= p by {}
                        assert(indices_view(r@.push(p)) =~= indices_view(old_r) + seq![p as int]);
                    }
                    r.push(p);
                },
                None => {},
            }
            prev = Some(pos);
            threshold = threshold + max_width as u128;
        } else {
            prev = Some(pos);
        }
        j = j + 1;
    }
    proof {
        assert(bv.skip(j as int) =~= Seq::<int>::empty());
        assert(indices_view(r@) =~= indices_view(r@) + wrap_splits(bv.skip(j as int), match prev {
            Some(p) => Some(p as int),
            None => None,
        }, threshold as int, max_width as int));
    }
    r
}

/// The cut position before piece `k` of a split of a text of length `n` at
/// the ascending positions `ix`: `0` before the first piece, the matching
/// split position in between, `n` after the last.
pub open spec fn cut_at(ix: Seq<int>, n: int, k: int) -> int {
    if k <= 0 {
        0
    } else if k <= ix.len() {
        ix[k - 1]
    } else {
        n
    }
}

/// Split `s` before each character offset in `indices` (ascending, strictly
/// inside the string): the result holds one piece more than there are
/// offsets, and piece `k` is exactly the text between cut `k` and cut `k+1`.
pub fn split_string_at_indices(s: &str, indices: &Vec<usize>) -> (r: Vec<String>)
    requires
        s@.len() > 0,
        forall|k: int| 0 <= k < indices@.len() ==> indices@[k] < s@.len(),
        forall|a: int, b: int| 0 <= a <= b < indices@.len() ==> indices@[a] <= indices@[b],
    ensures
        r@.len() == indices@.len() + 1,
        forall|k: int|
            0 <= k < r@.len() ==> (#[trigger] r@[k])@ == s@.subrange(
                cut_at(indices_view(indices@), s@.len() as int, k),
                cut_at(indices_view(indices@), s@.len() as int, k + 1),
            ),
{
    let ghost ix = indices_view(indices@);
    let ghost n_spec = s@.len() as int;
    let n = s.unicode_len();
    let m = indices.len();
    let mut r: Vec<String> = Vec::new();
    let mut k: usize = 0;
    while k < m
        invariant
            n == s@.len(),
            n > 0,
            m == indices@.len(),
            ix == indices_view(indices@),
            n_spec == n as int,
            forall|t: int| 0 <= t < m ==> indices@[t] < n,
            forall|a: int, b: int| 0 <= a <= b < m ==> indices@[a] <= indices@[b],
            k <= m,
            r@.len() == k,
            forall|t: int|
                0 <= t < k ==> (#[trigger] r@[t])@ == s@.subrange(
                    cut_at(ix, n_spec, t),
                    cut_at(ix, n_spec, t + 1),
                ),
        decreases m - k,
    {
        let from = if k == 0 {
            0
        } else {
            indices[k - 1]
        };
        let to = indices[k];
        assert(from as int == cut_at(ix, n_spec, k as int));
        assert(to as int == cut_at(ix, n_spec, k as int + 1));
        let ghost old_r = r@;
        let piece = s.substring_char(from, to);
        r.push(piece.to_owned());
        proof {
            assert(r@ == old_r.push(r@[k as int]));
            assert forall|t: int| 0 <= t < r@.len() implies (#[trigger] r@[t])@ == s@.subrange(
                cut_at(ix, n_spec, t),
                cut_at(ix, n_spec, t + 1),
            ) by {
                if t < k {
                    assert(r@[t] == old_r[t]);
                }
            }
        }
        k += 1;
    }
    let from = if m == 0 {
        0
    } else {
        indices[m - 1]
    };
    assert(from as int == cut_at(ix, n_spec, m as int));
    assert(n as int == cut_at(ix, n_spec, m as int + 1));
    let ghost old_r = r@;
    let tail = s.substring_char(from, n);
    r.push(tail.to_owned());
    proof {
        assert(r@ == old_r.push(r@[m as int]));
        assert forall|t: int| 0 <= t < r@.len() implies (#[trigger] r@[t])@ == s@.subrange(
            cut_at(ix, n_spec, t),
            cut_at(ix, n_spec, t + 1),
        ) by {
            if t < m {
                assert(r@[t] == old_r[t]);
            }
        }
    }
    r
}

/// From piece `k` on, the concatenation of the pieces of a cut split is the
/// tail of the text behind cut `k`.
proof fn lemma_concat_of_cuts_from(text: Seq<char>, parts: Seq<Seq<char>>, ix: Seq<int>, k: int)
    requires
        parts.len() == ix.len() + 1,
        forall|t: int| 0 <= t < ix.len() ==> 0 <= #[trigger] ix[t] <= text.len(),
        forall|a: int, b: int| 0 <= a <= b < ix.len() ==> ix[a] <= ix[b],
        forall|t: int|
            0 <= t < parts.len() ==> #[trigger] parts[t] == text.subrange(
                cut_at(ix, text.len() as int, t),
                cut_at(ix, text.len() as int, t + 1),
            ),
        0 <= k <= parts.len(),
    ensures
        concat_of(parts.skip(k)) == text.subrange(
            cut_at(ix, text.len() as int, k),
            text.len() as int,
        ),
    decreases parts.len() - k,
{
    let n = text.len() as int;
    if k == parts.len() {
        assert(parts.skip(k) =~= Seq::<Seq<char>>::empty());
        assert(cut_at(ix, n, k) == n);
        assert(text.subrange(n, n) =~= concat_of(parts.skip(k)));
    } else {
        lemma_concat_of_cuts_from(text, parts, ix, k + 1);
        assert(parts.skip(k).drop_first() =~= parts.skip(k + 1));
        assert(parts.skip(k)[0] == parts[k]);
        assert(0 <= cut_at(ix, n, k) <= cut_at(ix, n, k + 1) <= n);
        assert(text.subrange(cut_at(ix, n, k), cut_at(ix, n, k + 1)) + text.subrange(
            cut_at(ix, n, k + 1),
            n,
        ) =~= text.subrange(cut_at(ix, n, k), n));
    }
}

/// Law (round trip): concatenating the pieces of a split at ascending cut
/// positions reproduces the original text exactly, breaks and all.
pub proof fn lemma_concat_of_cuts(text: Seq<char>, parts: Seq<Seq<char>>, ix: Seq<int>)
    requires
        parts.len() == ix.len() + 1,
        forall|t: int| 0 <= t < ix.len() ==> 0 <= #[trigger] ix[t] <= text.len(),
        forall|a: int, b: int| 0 <= a <= b < ix.len() ==> ix[a] <= ix[b],
        forall|t: int|
            0 <= t < parts.len() ==> #[trigger] parts[t] == text.subrange(
                cut_at(ix, text.len() as int, t),
                cut_at(ix, text.len() as int, t + 1),
            ),
    ensures
        concat_of(parts) == text,
{
    lemma_concat_of_cuts_from(text, parts, ix, 0);
    assert(parts.skip(0) =~= parts);
    assert(text.subrange(0, text.len() as int) =~= text);
}

/// Wrap one message to a display width: the lines of the message, split at
/// the word-boundary positions the threshold walk picks.  A message that
/// already fits the width is one single line; so is the empty message.
/// Concatenating the lines always reproduces the message exactly.
pub fn wrap_text(content: &str, wrap_width: usize) -> (r: Vec<String>)
    ensures
        r@.len() >= 1,
        content@.len() <= wrap_width ==> r@.len() == 1 && r@[0]@ == content@,
        content@.len() > wrap_width ==> {
            let splits = spec_wrap_indices(content@, wrap_width as int);
            &&& r@.len() == splits.len() + 1
            &&& forall|k: int|
                0 <= k < r@.len() ==> (#[trigger] r@[k])@ == content@.subrange(
                    cut_at(splits, content@.len() as int, k),
                    cut_at(splits, content@.len() as int, k + 1),
                )
        },
        concat_of(texts_view(r@)) == content@,
{
    if content.unicode_len() > wrap_width {
        let indices = wrap_indices(content, wrap_width);
        let parts = split_string_at_indices(content, &indices);
        proof {
            let ix = indices_view(indices@);
            let pieces = texts_view(parts@);
            assert forall|t: int| 0 <= t < pieces.len() implies #[trigger] pieces[t]
                == content@.subrange(
                cut_at(ix, content@.len() as int, t),
                cut_at(ix, content@.len() as int, t + 1),
            ) by {
                assert(pieces[t] == parts@[t]@);
            }
            lemma_concat_of_cuts(content@, pieces, ix);
        }
        parts
    } else {
        let mut r: Vec<String> = Vec::new();
        r.push(content.to_owned());
        proof {
            assert(texts_view(r@) =~= seq![content@]);
            assert(texts_view(r@)[0] == content@);
            assert(texts_view(r@).drop_first() =~= Seq::<Seq<char>>::empty());
            assert(concat_of(Seq::<Seq<char>>::empty()) =~= Seq::<char>::empty());
            assert(concat_of(texts_view(r@)) =~= content@);
        }
        r
    }
}

} // verus!
