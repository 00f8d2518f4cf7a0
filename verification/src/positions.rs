//! The positions at which a byte occurs in a byte sequence, as a spec
//! function, with the lemmas that the search routines are proved from.

use vstd::prelude::*;

verus! {

/// The indices `i` with `lo <= i < hi` at which `hay[i] == needle`, in
/// increasing order.
pub open spec fn positions_in(needle: u8, hay: Seq<u8>, lo: int, hi: int) -> Seq<usize>
    decreases hi - lo,
{
    if hi <= lo {
        Seq::empty()
    } else {
        let before = positions_in(needle, hay, lo, hi - 1);
        if hay[hi - 1] == needle {
            before.push((hi - 1) as usize)
        } else {
            before
        }
    }
}

/// Every index of `hay` at which `needle` occurs, in increasing order.
pub open spec fn match_positions(needle: u8, hay: Seq<u8>) -> Seq<usize> {
    positions_in(needle, hay, 0, hay.len() as int)
}

/// `Some` of the first element of `s`, or `None` when `s` is empty.
pub open spec fn seq_first(s: Seq<usize>) -> Option<usize> {
    if s.len() == 0 {
        None
    } else {
        Some(s[0])
    }
}

/// `Some` of the last element of `s`, or `None` when `s` is empty.
pub open spec fn seq_last(s: Seq<usize>) -> Option<usize> {
    if s.len() == 0 {
        None
    } else {
        Some(s.last())
    }
}

/// The positions in `[lo, hi)` are those in `[lo, mid)` followed by those in
/// `[mid, hi)`.
pub proof fn lemma_positions_split(needle: u8, hay: Seq<u8>, lo: int, mid: int, hi: int)
    requires
        lo <= mid <= hi,
    ensures
        positions_in(needle, hay, lo, hi) == positions_in(needle, hay, lo, mid) + positions_in(
            needle,
            hay,
            mid,
            hi,
        ),
    decreases hi - mid,
{
    if hi == mid {
        assert(positions_in(needle, hay, lo, mid) + positions_in(needle, hay, mid, hi)
            =~= positions_in(needle, hay, lo, mid));
    } else {
        lemma_positions_split(needle, hay, lo, mid, hi - 1);
        let a = positions_in(needle, hay, lo, mid);
        let b = positions_in(needle, hay, mid, hi - 1);
        if hay[hi - 1] == needle {
            assert((a + b).push((hi - 1) as usize) =~= a + b.push((hi - 1) as usize));
        }
    }
}

/// A range without an occurrence of `needle` has no positions.
pub proof fn lemma_positions_none(needle: u8, hay: Seq<u8>, lo: int, hi: int)
    requires
        forall|i: int| lo <= i < hi ==> hay[i] != needle,
    ensures
        positions_in(needle, hay, lo, hi) == Seq::<usize>::empty(),
    decreases hi - lo,
{
    if hi > lo {
        lemma_positions_none(needle, hay, lo, hi - 1);
    }
}

/// The positions in the one-element range `[i, i + 1)`.
pub proof fn lemma_positions_single(needle: u8, hay: Seq<u8>, i: int)
    ensures
        positions_in(needle, hay, i, i + 1) == (if hay[i] == needle {
            seq![i as usize]
        } else {
            Seq::<usize>::empty()
        }),
{
    assert(positions_in(needle, hay, i, i) == Seq::<usize>::empty());
    if hay[i] == needle {
        assert(Seq::<usize>::empty().push(i as usize) =~= seq![i as usize]);
    }
}

/// When `needle` first occurs in `[lo, hi)` at `i`, the positions in
/// `[lo, hi)` are `i` followed by the positions in `[i + 1, hi)`.
pub proof fn lemma_positions_front(needle: u8, hay: Seq<u8>, lo: int, i: int, hi: int)
    requires
        lo <= i < hi,
        hay[i] == needle,
        forall|k: int| lo <= k < i ==> hay[k] != needle,
    ensures
        positions_in(needle, hay, lo, hi) == seq![i as usize] + positions_in(needle, hay, i + 1, hi),
{
    lemma_positions_split(needle, hay, lo, i, hi);
    lemma_positions_split(needle, hay, i, i + 1, hi);
    lemma_positions_none(needle, hay, lo, i);
    lemma_positions_single(needle, hay, i);
    assert(Seq::<usize>::empty() + (seq![i as usize] + positions_in(needle, hay, i + 1, hi))
        =~= seq![i as usize] + positions_in(needle, hay, i + 1, hi));
}

/// When `needle` last occurs in `[lo, hi)` at `j`, the positions in
/// `[lo, hi)` are those in `[lo, j)` followed by `j`.
pub proof fn lemma_positions_back(needle: u8, hay: Seq<u8>, lo: int, j: int, hi: int)
    requires
        lo <= j < hi,
        hay[j] == needle,
        forall|k: int| j < k < hi ==> hay[k] != needle,
    ensures
        positions_in(needle, hay, lo, hi) == positions_in(needle, hay, lo, j).push(j as usize),
{
    lemma_positions_split(needle, hay, lo, j, hi);
    lemma_positions_split(needle, hay, j, j + 1, hi);
    lemma_positions_none(needle, hay, j + 1, hi);
    lemma_positions_single(needle, hay, j);
    assert(positions_in(needle, hay, lo, j) + (seq![j as usize] + Seq::<usize>::empty())
        =~= positions_in(needle, hay, lo, j).push(j as usize));
}

/// Each position in `[lo, hi)` lies in the range, holds `needle`, and the
/// positions increase strictly; every occurrence of `needle` in the range is
/// among them.
pub proof fn lemma_positions_exact(needle: u8, hay: Seq<u8>, lo: int, hi: int)
    requires
        0 <= lo,
        hi <= hay.len(),
        hay.len() <= usize::MAX,
    ensures
        forall|k: int|
            0 <= k < positions_in(needle, hay, lo, hi).len() ==> {
                let p = #[trigger] positions_in(needle, hay, lo, hi)[k];
                &&& lo <= p < hi
                &&& hay[p as int] == needle
            },
        forall|k1: int, k2: int|
            0 <= k1 < k2 < positions_in(needle, hay, lo, hi).len() ==> positions_in(
                needle,
                hay,
                lo,
                hi,
            )[k1] < positions_in(needle, hay, lo, hi)[k2],
        forall|i: int|
            lo <= i < hi && hay[i] == needle ==> positions_in(needle, hay, lo, hi).contains(
                i as usize,
            ),
    decreases hi - lo,
{
    if hi > lo {
        lemma_positions_exact(needle, hay, lo, hi - 1);
        let before = positions_in(needle, hay, lo, hi - 1);
        let all = positions_in(needle, hay, lo, hi);
        if hay[hi - 1] == needle {
            assert(all[before.len() as int] == (hi - 1) as usize);
            assert forall|i: int| lo <= i < hi && hay[i] == needle implies all.contains(
                i as usize,
            ) by {
                if i < hi - 1 {
                    let k = choose|k: int| 0 <= k < before.len() && before[k] == i as usize;
                    assert(all[k] == i as usize);
                } else {
                    assert(all[before.len() as int] == i as usize);
                }
            }
        }
    }
}

/// The first element of the positions is the least index holding `needle`,
/// and there is none exactly when `needle` does not occur.
pub proof fn lemma_first_position(needle: u8, hay: Seq<u8>)
    requires
        hay.len() <= usize::MAX,
    ensures
        seq_first(match_positions(needle, hay)) matches Some(i) ==> i < hay.len() && hay[i as int]
            == needle && forall|k: int| 0 <= k < i ==> hay[k] != needle,
        seq_first(match_positions(needle, hay)) is None <==> forall|k: int|
            0 <= k < hay.len() ==> hay[k] != needle,
{
    let all = match_positions(needle, hay);
    lemma_positions_exact(needle, hay, 0, hay.len() as int);
    if all.len() > 0 {
        let p = all[0];
        assert forall|k: int| 0 <= k < p implies hay[k] != needle by {
            if hay[k] == needle {
                assert(all.contains(k as usize));
                let j = choose|j: int| 0 <= j < all.len() && all[j] == k as usize;
                if j > 0 {
                    assert(all[0] < all[j]);
                }
            }
        }
        assert(!(forall|k: int| 0 <= k < hay.len() ==> hay[k] != needle)) by {
            assert(hay[p as int] == needle);
        }
    } else {
        assert forall|k: int| 0 <= k < hay.len() implies hay[k] != needle by {
            if hay[k] == needle {
                assert(all.contains(k as usize));
            }
        }
    }
}

/// The last element of the positions is the greatest index holding
/// `needle`, and there is none exactly when `needle` does not occur.
pub proof fn lemma_last_position(needle: u8, hay: Seq<u8>)
    requires
        hay.len() <= usize::MAX,
    ensures
        seq_last(match_positions(needle, hay)) matches Some(i) ==> i < hay.len() && hay[i as int]
            == needle && forall|k: int| i < k < hay.len() ==> hay[k] != needle,
        seq_last(match_positions(needle, hay)) is None <==> forall|k: int|
            0 <= k < hay.len() ==> hay[k] != needle,
{
    let all = match_positions(needle, hay);
    lemma_positions_exact(needle, hay, 0, hay.len() as int);
    if all.len() > 0 {
        let p = all.last();
        assert forall|k: int| p < k < hay.len() implies hay[k] != needle by {
            if hay[k] == needle {
                assert(all.contains(k as usize));
                let j = choose|j: int| 0 <= j < all.len() && all[j] == k as usize;
                if j < all.len() - 1 {
                    assert(all[j] < all[all.len() - 1]);
                }
            }
        }
        assert(!(forall|k: int| 0 <= k < hay.len() ==> hay[k] != needle)) by {
            assert(hay[p as int] == needle);
        }
    } else {
        assert forall|k: int| 0 <= k < hay.len() implies hay[k] != needle by {
            if hay[k] == needle {
                assert(all.contains(k as usize));
            }
        }
    }
}

} // verus!
