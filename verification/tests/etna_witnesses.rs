//! Witness inputs for the two properties: each must pass.

use memchr_etna::etna::{
    property_memchr_iter_matches_naive, property_memrchr_iter_matches_naive, PropertyResult,
};

fn assert_pass(r: PropertyResult) {
    match r {
        PropertyResult::Pass => {}
        PropertyResult::Discard => {}
        PropertyResult::Fail(m) => panic!("property failed: {m}"),
    }
}

/// Forward iteration over a haystack with several hits yields 0-based
/// positions.
#[test]
fn witness_memchr_iter_matches_naive_case_multi_hit() {
    let haystack = b"aaaabaaaabaaaab".to_vec();
    assert_pass(property_memchr_iter_matches_naive(b'b', haystack));
}

/// A single hit at a position other than 0.
#[test]
fn witness_memchr_iter_matches_naive_case_single_hit() {
    let haystack = b"zzzzzzza".to_vec();
    assert_pass(property_memchr_iter_matches_naive(b'a', haystack));
}

/// Reverse iteration over a haystack with several hits yields positions
/// from the end.
#[test]
fn witness_memrchr_iter_matches_naive_case_multi_hit() {
    let haystack = b"aabaabaab".to_vec();
    assert_pass(property_memrchr_iter_matches_naive(b'b', haystack));
}

/// Two hits, one at each end.
#[test]
fn witness_memrchr_iter_matches_naive_case_two_separated() {
    let haystack = b"a____a".to_vec();
    assert_pass(property_memrchr_iter_matches_naive(b'a', haystack));
}
