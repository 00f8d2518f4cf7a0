//! Concrete cases of the search routines and of their laws.

use memchr_etna::etna::{naive_memchr, naive_memchr_iter, naive_memrchr};
use memchr_etna::search::{memchr, memchr_iter, memrchr, memrchr_iter, Memchr};

#[test]
fn memchr_finds_first_hit() {
    assert_eq!(memchr(b'b', b"aabaabaab"), Some(2));
    assert_eq!(memchr(b'a', b"zzzzzzza"), Some(7));
    assert_eq!(memchr(b'q', b"aabaabaab"), None);
    assert_eq!(memchr(b'a', b""), None);
}

#[test]
fn memrchr_finds_last_hit() {
    assert_eq!(memrchr(b'b', b"aabaabaab"), Some(8));
    assert_eq!(memrchr(b'a', b"a____a"), Some(5));
    assert_eq!(memrchr(b'a', b"a_____"), Some(0));
    assert_eq!(memrchr(b'q', b"aabaabaab"), None);
    assert_eq!(memrchr(b'a', b""), None);
}

#[test]
fn memchr_iter_yields_zero_based_positions_in_order() {
    assert_eq!(memchr_iter(b'b', b"aaaabaaaabaaaab").collect(), vec![4, 9, 14]);
    assert_eq!(memchr_iter(b'a', b"abc").collect(), vec![0]);
    assert_eq!(memchr_iter(b'x', b"abc").collect(), Vec::<usize>::new());
    assert_eq!(memchr_iter(b'x', b"").collect(), Vec::<usize>::new());
}

#[test]
fn memrchr_iter_yields_positions_from_the_end() {
    assert_eq!(memrchr_iter(b'b', b"aabaabaab").collect(), vec![8, 5, 2]);
    assert_eq!(memrchr_iter(b'a', b"a____a").collect(), vec![5, 0]);
    assert_eq!(memrchr_iter(b'a', b"").collect(), Vec::<usize>::new());
}

#[test]
fn reverse_iteration_is_forward_iteration_reversed() {
    let hay = b"\x00\x01a\xffa\x00\x7f\x00";
    for needle in [0u8, 1, b'a', 0xff, 0x7f, b'z'] {
        let mut forward = memchr_iter(needle, hay).collect();
        forward.reverse();
        assert_eq!(memrchr_iter(needle, hay).collect(), forward);
    }
}

#[test]
fn interleaved_next_and_next_back_hand_out_each_position_once() {
    let hay = b"xaxaxaxax";
    let mut it = Memchr::new(b'x', hay);
    assert_eq!(it.next(), Some(0));
    assert_eq!(it.next_back(), Some(8));
    assert_eq!(it.next(), Some(2));
    assert_eq!(it.next_back(), Some(6));
    assert_eq!(it.next(), Some(4));
    assert_eq!(it.next_back(), None);
    assert_eq!(it.next(), None);
    assert_eq!(it.next(), None);
}

#[test]
fn rev_next_back_takes_from_the_front() {
    let mut it = memrchr_iter(b'a', b"aXaXa");
    assert_eq!(it.next_back(), Some(0));
    assert_eq!(it.next(), Some(4));
    assert_eq!(it.collect(), vec![2]);
}

#[test]
fn naive_scans_agree_with_search() {
    let hay = b"abcabcab";
    for needle in [b'a', b'b', b'c', b'd'] {
        assert_eq!(naive_memchr(needle, hay), memchr(needle, hay));
        assert_eq!(naive_memrchr(needle, hay), memrchr(needle, hay));
        assert_eq!(naive_memchr_iter(needle, hay), memchr_iter(needle, hay).collect());
    }
    assert_eq!(naive_memchr_iter(b'c', hay), vec![2, 5]);
    assert_eq!(naive_memchr(b'c', hay), Some(2));
    assert_eq!(naive_memrchr(b'c', hay), Some(5));
    assert_eq!(naive_memrchr(b'd', hay), None);
}
