//! Searching a byte slice for one byte: the first and last occurrence, and a
//! double-ended iterator over every occurrence.

use vstd::prelude::*;
use crate::positions::{
    lemma_first_position, lemma_last_position, lemma_positions_back, lemma_positions_front,
    lemma_positions_none, match_positions, positions_in, seq_first, seq_last,
};

verus! {

/// An iterator over the positions at which a byte occurs in a haystack.
///
/// `next` hands out positions from the front and `next_back` from the back;
/// each position is handed out once, whichever end it leaves by.
pub struct Memchr<'h> {
    needle: u8,
    haystack: &'h [u8],
    start: usize,
    end: usize,
}

impl<'h> Memchr<'h> {
    #[verifier::type_invariant]
    spec fn inv(&self) -> bool {
        self.start <= self.end <= self.haystack@.len()
    }

    /// The positions that this iterator has yet to hand out, in increasing
    /// order.
    pub closed spec fn remaining(&self) -> Seq<usize> {
        positions_in(self.needle, self.haystack@, self.start as int, self.end as int)
    }

    /// An iterator over every position of `needle` in `haystack`.
    pub fn new(needle: u8, haystack: &'h [u8]) -> (it: Self)
        ensures
            it.remaining() == match_positions(needle, haystack@),
    {
        Memchr { needle, haystack, start: 0, end: haystack.len() }
    }

    /// Hands out the first remaining position.
    pub fn next(&mut self) -> (r: Option<usize>)
        ensures
            r == seq_first(old(self).remaining()),
            final(self).remaining() == (if old(self).remaining().len() == 0 {
                old(self).remaining()
            } else {
                old(self).remaining().drop_first()
            }),
    {
        proof {
            use_type_invariant(&*self);
        }
        let needle = self.needle;
        let haystack = self.haystack;
        let start = self.start;
        let end = self.end;
        let mut i = start;
        while i < end
            invariant
                start <= i <= end <= haystack@.len(),
                *self == *old(self),
                self.start == start && self.end == end,
                self.needle == needle && self.haystack == haystack,
                forall|k: int| start <= k < i ==> haystack@[k] != needle,
            decreases end - i,
        {
            if haystack[i] == needle {
                proof {
                    lemma_positions_front(needle, haystack@, start as int, i as int, end as int);
                    assert((seq![i as usize] + positions_in(needle, haystack@, i + 1, end as int))
                        .drop_first() =~= positions_in(needle, haystack@, i + 1, end as int));
                }
                self.start = i + 1;
                return Some(i);
            }
            i = i + 1;
        }
        proof {
            lemma_positions_none(needle, haystack@, start as int, end as int);
        }
        self.start = end;
        None
    }

    /// Hands out the last remaining position.
    pub fn next_back(&mut self) -> (r: Option<usize>)
        ensures
            r == seq_last(old(self).remaining()),
            final(self).remaining() == (if old(self).remaining().len() == 0 {
                old(self).remaining()
            } else {
                old(self).remaining().drop_last()
            }),
    {
        proof {
            use_type_invariant(&*self);
        }
        let needle = self.needle;
        let haystack = self.haystack;
        let start = self.start;
        let end = self.end;
        let mut j = end;
        while j > start
            invariant
                start <= j <= end <= haystack@.len(),
                *self == *old(self),
                self.start == start && self.end == end,
                self.needle == needle && self.haystack == haystack,
                forall|k: int| j <= k < end ==> haystack@[k] != needle,
            decreases j,
        {
            if haystack[j - 1] == needle {
                proof {
                    lemma_positions_back(needle, haystack@, start as int, j - 1, end as int);
                    assert(positions_in(needle, haystack@, start as int, j - 1).push(
                        (j - 1) as usize,
                    ).drop_last() =~= positions_in(needle, haystack@, start as int, j - 1));
                }
                self.end = j - 1;
                return Some(j - 1);
            }
            j = j - 1;
        }
        proof {
            lemma_positions_none(needle, haystack@, start as int, end as int);
        }
        self.end = start;
        None
    }

    /// Every remaining position, from the front.
    pub fn collect(self) -> (v: Vec<usize>)
        ensures
            v@ == self.remaining(),
    {
        let mut it = self;
        let mut v: Vec<usize> = Vec::new();
        loop
            invariant
                v@ + it.remaining() == self.remaining(),
            decreases it.remaining().len(),
        {
            let ghost before = it.remaining();
            match it.next() {
                Some(p) => {
                    assert(v@.push(p) + it.remaining() =~= v@ + before);
                    v.push(p);
                },
                None => {
                    assert(v@ =~= v@ + before);
                    return v;
                },
            }
        }
    }
}

/// An iterator over the positions at which a byte occurs, from the back.
pub struct Rev<'h> {
    inner: Memchr<'h>,
}

impl<'h> Rev<'h> {
    /// The positions that this iterator has yet to hand out, in decreasing
    /// order.
    pub closed spec fn remaining(&self) -> Seq<usize> {
        self.inner.remaining().reverse()
    }

    /// Hands out the first remaining position, the greatest one left.
    pub fn next(&mut self) -> (r: Option<usize>)
        ensures
            r == seq_first(old(self).remaining()),
            final(self).remaining() == (if old(self).remaining().len() == 0 {
                old(self).remaining()
            } else {
                old(self).remaining().drop_first()
            }),
    {
        let ghost before = self.inner.remaining();
        let r = self.inner.next_back();
        proof {
            if before.len() > 0 {
                assert(before.drop_last().reverse() =~= before.reverse().drop_first());
            }
        }
        r
    }

    /// Hands out the last remaining position, the least one left.
    pub fn next_back(&mut self) -> (r: Option<usize>)
        ensures
            r == seq_last(old(self).remaining()),
            final(self).remaining() == (if old(self).remaining().len() == 0 {
                old(self).remaining()
            } else {
                old(self).remaining().drop_last()
            }),
    {
        let ghost before = self.inner.remaining();
        let r = self.inner.next();
        proof {
            if before.len() > 0 {
                assert(before.drop_first().reverse() =~= before.reverse().drop_last());
            }
        }
        r
    }

    /// Every remaining position, greatest first.
    pub fn collect(self) -> (v: Vec<usize>)
        ensures
            v@ == self.remaining(),
    {
        let mut it = self;
        let mut v: Vec<usize> = Vec::new();
        loop
            invariant
                v@ + it.remaining() == self.remaining(),
            decreases it.remaining().len(),
        {
            let ghost before = it.remaining();
            match it.next() {
                Some(p) => {
                    assert(v@.push(p) + it.remaining() =~= v@ + before);
                    v.push(p);
                },
                None => {
                    assert(v@ =~= v@ + before);
                    return v;
                },
            }
        }
    }
}

/// An iterator over the positions of `needle` in `haystack`, from the front.
pub fn memchr_iter<'h>(needle: u8, haystack: &'h [u8]) -> (it: Memchr<'h>)
    ensures
        it.remaining() == match_positions(needle, haystack@),
{
    Memchr::new(needle, haystack)
}

/// An iterator over the positions of `needle` in `haystack`, from the back.
pub fn memrchr_iter<'h>(needle: u8, haystack: &'h [u8]) -> (it: Rev<'h>)
    ensures
        it.remaining() == match_positions(needle, haystack@).reverse(),
{
    Rev { inner: Memchr::new(needle, haystack) }
}

/// The first position of `needle` in `haystack`, if it occurs.
pub fn memchr(needle: u8, haystack: &[u8]) -> (r: Option<usize>)
    ensures
        r == seq_first(match_positions(needle, haystack@)),
        r matches Some(i) ==> i < haystack@.len() && haystack@[i as int] == needle && forall|k: int|
            0 <= k < i ==> haystack@[k] != needle,
        r is None <==> forall|k: int| 0 <= k < haystack@.len() ==> haystack@[k] != needle,
{
    let mut it = Memchr::new(needle, haystack);
    let r = it.next();
    proof {
        // The slice's length is a `usize`.
        assert(haystack@.len() == haystack.len());
        lemma_first_position(needle, haystack@);
    }
    r
}

/// The last position of `needle` in `haystack`, if it occurs.
pub fn memrchr(needle: u8, haystack: &[u8]) -> (r: Option<usize>)
    ensures
        r == seq_last(match_positions(needle, haystack@)),
        r matches Some(i) ==> i < haystack@.len() && haystack@[i as int] == needle && forall|k: int|
            i < k < haystack@.len() ==> haystack@[k] != needle,
        r is None <==> forall|k: int| 0 <= k < haystack@.len() ==> haystack@[k] != needle,
{
    let mut it = Memchr::new(needle, haystack);
    let r = it.next_back();
    proof {
        // The slice's length is a `usize`.
        assert(haystack@.len() == haystack.len());
        lemma_last_position(needle, haystack@);
    }
    r
}

} // verus!
