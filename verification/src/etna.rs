//! Property checks that hold the search routines to a naive scan, each a
//! function of concrete, owned inputs that returns a `PropertyResult`.

use vstd::prelude::*;
use crate::positions::{
    lemma_first_position, lemma_last_position, match_positions,
    positions_in, seq_first, seq_last,
};
use crate::search::{memchr, memchr_iter, memrchr, memrchr_iter};
use crate::text::{
    byte_nats, decimal_digits, list_text, push_byte_list, push_decimal, push_usize_list, usize_nats,
};

verus! {

/// What a property check concludes for one input.
pub enum PropertyResult {
    /// The property holds.
    Pass,
    /// The property fails; the text says how.
    Fail(String),
    /// The input is outside the property's domain.
    Discard,
}

/// The text of a mismatch between the positions an iterator yielded and
/// the expected ones.
pub open spec fn mismatch_text(
    label: Seq<char>,
    got: Seq<usize>,
    expected: Seq<usize>,
    needle: u8,
    haystack: Seq<u8>,
) -> Seq<char> {
    label + " mismatch: got="@ + list_text(usize_nats(got)) + " expected="@ + list_text(
        usize_nats(expected),
    ) + " needle="@ + decimal_digits(needle as nat) + " haystack="@ + list_text(
        byte_nats(haystack),
    )
}

/// The text of a disagreement between a single-shot search and an end of
/// the iterator's positions.
pub open spec fn disagreement_text(
    function: Seq<char>,
    reference: Seq<char>,
    needle: u8,
    haystack: Seq<u8>,
) -> Seq<char> {
    function + " disagrees with "@ + reference + ": needle="@ + decimal_digits(needle as nat)
        + " haystack="@ + list_text(byte_nats(haystack))
}

/// The message for a mismatch between the positions an iterator yielded and
/// the expected ones: the label, both lists, the needle in decimal and the
/// haystack's bytes.
pub fn mismatch_message(
    label: &str,
    got: &Vec<usize>,
    expected: &Vec<usize>,
    needle: u8,
    haystack: &Vec<u8>,
) -> (m: String)
    ensures
        m@ == mismatch_text(label@, got@, expected@, needle, haystack@),
{
    let mut m = String::from_str(label);
    m.append(" mismatch: got=");
    push_usize_list(&mut m, got);
    m.append(" expected=");
    push_usize_list(&mut m, expected);
    m.append(" needle=");
    push_decimal(&mut m, needle as u128);
    m.append(" haystack=");
    push_byte_list(&mut m, haystack);
    assert(m@ =~= mismatch_text(label@, got@, expected@, needle, haystack@));
    m
}

/// The message for a disagreement between a single-shot search and an end
/// of the iterator's positions: the search, what it disagrees with, the
/// needle in decimal and the haystack's bytes.
pub fn disagreement_message(function: &str, reference: &str, needle: u8, haystack: &Vec<u8>) -> (m:
    String)
    ensures
        m@ == disagreement_text(function@, reference@, needle, haystack@),
{
    let mut m = String::from_str(function);
    m.append(" disagrees with ");
    m.append(reference);
    m.append(": needle=");
    push_decimal(&mut m, needle as u128);
    m.append(" haystack=");
    push_byte_list(&mut m, haystack);
    assert(m@ =~= disagreement_text(function@, reference@, needle, haystack@));
    m
}

/// The first index of `haystack` that holds `needle`, scanning from the
/// front one byte at a time.
pub fn naive_memchr(needle: u8, haystack: &[u8]) -> (r: Option<usize>)
    ensures
        r == seq_first(match_positions(needle, haystack@)),
        r matches Some(i) ==> i < haystack@.len() && haystack@[i as int] == needle && forall|k: int|
            0 <= k < i ==> haystack@[k] != needle,
        r is None <==> forall|k: int| 0 <= k < haystack@.len() ==> haystack@[k] != needle,
{
    let n = haystack.len();
    let mut i: usize = 0;
    while i < n
        invariant
            n == haystack@.len(),
            i <= n,
            forall|k: int| 0 <= k < i ==> haystack@[k] != needle,
        decreases n - i,
    {
        if haystack[i] == needle {
            proof {
                lemma_first_position(needle, haystack@);
                let p = seq_first(match_positions(needle, haystack@))->0;
                assert(!(p < i) && !(i < p));
            }
            return Some(i);
        }
        i = i + 1;
    }
    proof {
        lemma_first_position(needle, haystack@);
    }
    None
}

/// The last index of `haystack` that holds `needle`, scanning from the back
/// one byte at a time.
pub fn naive_memrchr(needle: u8, haystack: &[u8]) -> (r: Option<usize>)
    ensures
        r == seq_last(match_positions(needle, haystack@)),
        r matches Some(i) ==> i < haystack@.len() && haystack@[i as int] == needle && forall|k: int|
            i < k < haystack@.len() ==> haystack@[k] != needle,
        r is None <==> forall|k: int| 0 <= k < haystack@.len() ==> haystack@[k] != needle,
{
    let n = haystack.len();
    let mut j: usize = n;
    while j > 0
        invariant
            n == haystack@.len(),
            j <= n,
            forall|k: int| j <= k < n ==> haystack@[k] != needle,
        decreases j,
    {
        if haystack[j - 1] == needle {
            proof {
                lemma_last_position(needle, haystack@);
                let p = seq_last(match_positions(needle, haystack@))->0;
                assert(!(p < j - 1) && !(j - 1 < p));
            }
            return Some(j - 1);
        }
        j = j - 1;
    }
    proof {
        lemma_last_position(needle, haystack@);
    }
    None
}

/// Every index of `haystack` that holds `needle`, in increasing order,
/// by one pass over the bytes.
pub fn naive_memchr_iter(needle: u8, haystack: &[u8]) -> (v: Vec<usize>)
    ensures
        v@ == match_positions(needle, haystack@),
{
    let n = haystack.len();
    let mut v: Vec<usize> = Vec::new();
    let mut i: usize = 0;
    while i < n
        invariant
            n == haystack@.len(),
            i <= n,
            v@ == positions_in(needle, haystack@, 0, i as int),
        decreases n - i,
    {
        if haystack[i] == needle {
            v.push(i);
        }
        i = i + 1;
    }
    v
}

/// The elements of `v` in the opposite order.
fn reversed(v: &Vec<usize>) -> (r: Vec<usize>)
    ensures
        r@ == v@.reverse(),
{
    let n = v.len();
    let mut r: Vec<usize> = Vec::new();
    let mut k: usize = 0;
    while k < n
        invariant
            n == v@.len(),
            k <= n,
            r@ == v@.reverse().take(k as int),
        decreases n - k,
    {
        r.push(v[n - 1 - k]);
        assert(r@ =~= v@.reverse().take(k + 1));
        k = k + 1;
    }
    assert(r@ =~= v@.reverse());
    r
}

/// Forward iteration over a single-byte needle yields exactly the 0-based
/// positions that a naive scan finds, in order.
///
/// The check compares the positions that `memchr_iter` yields with those of
/// `naive_memchr_iter` and passes when they are equal. They are equal on
/// every input, so the result is always `Pass`.
pub fn property_memchr_iter_matches_naive(needle: u8, haystack: Vec<u8>) -> (r: PropertyResult)
    ensures
        r is Pass,
{
    let got: Vec<usize> = memchr_iter(needle, haystack.as_slice()).collect();
    let expected = naive_memchr_iter(needle, haystack.as_slice());
    assert(got@ =~= expected@);
    if got == expected {
        PropertyResult::Pass
    } else {
        PropertyResult::Fail(mismatch_message("memchr_iter", &got, &expected, needle, &haystack))
    }
}

/// Reverse iteration yields the positions of forward iteration in reverse
/// order, and the single-shot searches agree with the ends of that list:
/// `memchr` with its last element and `memrchr` with its first.
///
/// The check passes when all three comparisons hold. They hold on every
/// input, so the result is always `Pass`.
pub fn property_memrchr_iter_matches_naive(needle: u8, haystack: Vec<u8>) -> (r: PropertyResult)
    ensures
        r is Pass,
{
    let got: Vec<usize> = memrchr_iter(needle, haystack.as_slice()).collect();
    let forward = naive_memchr_iter(needle, haystack.as_slice());
    let expected = reversed(&forward);
    assert(got@ =~= expected@);
    if !(got == expected) {
        return PropertyResult::Fail(
            mismatch_message("memrchr_iter", &got, &expected, needle, &haystack),
        );
    }
    let n = expected.len();
    let last = if n > 0 {
        Some(expected[0])
    } else {
        None
    };
    let first = if n > 0 {
        Some(expected[n - 1])
    } else {
        None
    };
    proof {
        let s = match_positions(needle, haystack@);
        if n > 0 {
            assert(s.reverse()[0] == s.last());
            assert(s.reverse()[n - 1] == s[0]);
        }
    }
    if memchr(needle, haystack.as_slice()) != first {
        return PropertyResult::Fail(
            disagreement_message("memchr", "first(memrchr_iter.reverse)", needle, &haystack),
        );
    }
    if memrchr(needle, haystack.as_slice()) != last {
        return PropertyResult::Fail(
            disagreement_message("memrchr", "first(memrchr_iter)", needle, &haystack),
        );
    }
    PropertyResult::Pass
}

} // verus!
