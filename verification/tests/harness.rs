//! Concrete cases of the runner's decisions.

use memchr_etna::etna::{
    property_memchr_iter_matches_naive, property_memrchr_iter_matches_naive, PropertyResult,
};
use memchr_etna::harness::{
    crabcheck_verdict, quickcheck_verdict, strip_failure_prefix, CrabcheckEnd, QuickcheckEnd,
    canonical_haystack_multi_hit, canonical_haystack_two_separated, cases_budget_from, cases_u32,
    check_memchr_iter_matches_naive, check_memrchr_iter_matches_naive, etna_check,
    haystack_pool, max_tests, mutated_haystack, needle_pool, property_from_name, run_all,
    to_err, to_opt, tool_from_name, unknown_property_message, unknown_tool_message, Metrics,
    Outcome, PropertyChoice, Tool, MAX_HAYSTACK_LEN,
};

fn is_pass(r: PropertyResult) -> bool {
    matches!(r, PropertyResult::Pass)
}

#[test]
fn properties_pass_on_edge_inputs() {
    for needle in [0u8, b'a', 0xff] {
        for hay in [&b""[..], b"a", b"\xff\xff", b"abc", b"\x00a\x00"] {
            assert!(is_pass(property_memchr_iter_matches_naive(needle, hay.to_vec())));
            assert!(is_pass(property_memrchr_iter_matches_naive(needle, hay.to_vec())));
        }
    }
}

#[test]
fn to_err_reads_pass_and_discard_as_no_failure() {
    assert_eq!(to_err(PropertyResult::Pass), Ok(()));
    assert_eq!(to_err(PropertyResult::Discard), Ok(()));
    assert_eq!(to_err(PropertyResult::Fail("boom".to_string())), Err("boom".to_string()));
}

#[test]
fn to_opt_reads_each_result() {
    assert_eq!(to_opt(PropertyResult::Pass), Some(true));
    assert_eq!(to_opt(PropertyResult::Fail("x".to_string())), Some(false));
    assert_eq!(to_opt(PropertyResult::Discard), None);
}

#[test]
fn metrics_combine_adds_both_fields() {
    let a = Metrics { inputs: 3, elapsed_us: 40 };
    let b = Metrics { inputs: 5, elapsed_us: 2 };
    let c = a.combine(b);
    assert_eq!((c.inputs, c.elapsed_us), (8, 42));
    let z = Metrics::default();
    assert_eq!((z.inputs, z.elapsed_us), (0, 0));
}

#[test]
fn canonical_inputs_and_checks() {
    assert_eq!(canonical_haystack_multi_hit(), b"aaaabaaaabaaaab".to_vec());
    assert_eq!(canonical_haystack_two_separated(), b"a____a".to_vec());
    assert_eq!(check_memchr_iter_matches_naive(), Ok(()));
    assert_eq!(check_memrchr_iter_matches_naive(), Ok(()));
}

fn passing(p: &str) -> Outcome {
    (Ok(()), Metrics { inputs: p.len() as u64, elapsed_us: 1 })
}

fn failing_first(p: &str) -> Outcome {
    if p == "MemchrIterMatchesNaive" {
        (Err("first".to_string()), Metrics { inputs: 7, elapsed_us: 3 })
    } else {
        (Ok(()), Metrics { inputs: 100, elapsed_us: 100 })
    }
}

fn failing_second(p: &str) -> Outcome {
    if p == "MemchrIterMatchesNaive" {
        (Ok(()), Metrics { inputs: 7, elapsed_us: 3 })
    } else {
        (Err("second".to_string()), Metrics { inputs: 2, elapsed_us: 1 })
    }
}

#[test]
fn run_all_adds_up_and_stops_at_first_failure() {
    let (r, m) = run_all(passing);
    assert_eq!(r, Ok(()));
    assert_eq!((m.inputs, m.elapsed_us), (22 + 23, 2));
    let (r, m) = run_all(failing_first);
    assert_eq!(r, Err("first".to_string()));
    assert_eq!((m.inputs, m.elapsed_us), (7, 3));
    let (r, m) = run_all(failing_second);
    assert_eq!(r, Err("second".to_string()));
    assert_eq!((m.inputs, m.elapsed_us), (9, 4));
}

#[test]
fn budget_reads_decimal_or_falls_back() {
    assert_eq!(cases_budget_from(None), u64::MAX);
    assert_eq!(cases_budget_from(Some("250")), 250);
    assert_eq!(cases_budget_from(Some("+7")), 7);
    assert_eq!(cases_budget_from(Some("007")), 7);
    assert_eq!(cases_budget_from(Some("")), u64::MAX);
    assert_eq!(cases_budget_from(Some("+")), u64::MAX);
    assert_eq!(cases_budget_from(Some("-1")), u64::MAX);
    assert_eq!(cases_budget_from(Some(" 1")), u64::MAX);
    assert_eq!(cases_budget_from(Some("12a")), u64::MAX);
    assert_eq!(cases_budget_from(Some("18446744073709551615")), u64::MAX);
    assert_eq!(cases_budget_from(Some("18446744073709551614")), u64::MAX - 1);
    assert_eq!(cases_budget_from(Some("18446744073709551616")), u64::MAX);
    for s in ["0", "1", "99", "+0", "4294967296", "x", "", "1 "] {
        assert_eq!(cases_budget_from(Some(s)), s.parse::<u64>().unwrap_or(u64::MAX));
    }
}

#[test]
fn budget_caps_and_doubles() {
    assert_eq!(cases_u32(5), 5);
    assert_eq!(cases_u32(u64::MAX), u32::MAX);
    assert_eq!(cases_u32(u32::MAX as u64 + 1), u32::MAX);
    assert_eq!(max_tests(21), 42);
    assert_eq!(max_tests(u64::MAX), u64::MAX);
    assert_eq!(max_tests(u64::MAX / 2 + 1), u64::MAX);
}

#[test]
fn names_select_tools_and_properties() {
    assert!(matches!(tool_from_name("etna"), Some(Tool::Etna)));
    assert!(matches!(tool_from_name("proptest"), Some(Tool::Proptest)));
    assert!(matches!(tool_from_name("quickcheck"), Some(Tool::Quickcheck)));
    assert!(matches!(tool_from_name("crabcheck"), Some(Tool::Crabcheck)));
    assert!(matches!(tool_from_name("hegel"), Some(Tool::Hegel)));
    assert!(tool_from_name("Etna").is_none());
    assert!(tool_from_name("").is_none());
    assert!(matches!(property_from_name("All"), Some(PropertyChoice::All)));
    assert!(matches!(
        property_from_name("MemchrIterMatchesNaive"),
        Some(PropertyChoice::MemchrIterMatchesNaive)
    ));
    assert!(matches!(
        property_from_name("MemrchrIterMatchesNaive"),
        Some(PropertyChoice::MemrchrIterMatchesNaive)
    ));
    assert!(property_from_name("all").is_none());
}

#[test]
fn etna_checks_pass() {
    assert_eq!(etna_check(PropertyChoice::MemchrIterMatchesNaive), Some(Ok(())));
    assert_eq!(etna_check(PropertyChoice::MemrchrIterMatchesNaive), Some(Ok(())));
    assert_eq!(etna_check(PropertyChoice::All), None);
}

#[test]
fn unknown_messages() {
    assert_eq!(unknown_property_message("etna", "Foo"), "Unknown property for etna: Foo");
    assert_eq!(unknown_tool_message("bar"), "Unknown tool: bar");
}

#[test]
fn pools_and_mutation() {
    assert_eq!(needle_pool(), vec![b'a', b'b', b'c', b'z', 0x00, 0x01, 0x7f, 0xff]);
    assert_eq!(
        haystack_pool(),
        vec![b'a', b'a', b'a', b'b', b'c', b'z', 0x00, 0x01, 0x7f, 0xff, b'_', b'.', b' ']
    );
    assert_eq!(MAX_HAYSTACK_LEN, 128);
    assert_eq!(mutated_haystack(Vec::new(), 0, b'q'), vec![b'q']);
    assert_eq!(mutated_haystack(b"abc".to_vec(), 1, b'q'), b"aqc".to_vec());
}

#[test]
fn quickcheck_verdicts() {
    assert_eq!(quickcheck_verdict(QuickcheckEnd::Finished), Ok(()));
    assert_eq!(
        quickcheck_verdict(QuickcheckEnd::Failed(vec!["98".to_string(), "[1, 2]".to_string()])),
        Err("(98 [1, 2])".to_string())
    );
    assert_eq!(quickcheck_verdict(QuickcheckEnd::Failed(vec![])), Err("()".to_string()));
    assert_eq!(
        quickcheck_verdict(QuickcheckEnd::Aborted("Boom".to_string())),
        Err("quickcheck aborted: Boom".to_string())
    );
    assert_eq!(
        quickcheck_verdict(QuickcheckEnd::TimedOut),
        Err("quickcheck timed out".to_string())
    );
    assert_eq!(
        quickcheck_verdict(QuickcheckEnd::GaveUp(17)),
        Err("quickcheck gave up after 17 tests".to_string())
    );
}

#[test]
fn crabcheck_verdicts() {
    assert_eq!(crabcheck_verdict(CrabcheckEnd::Passed), Ok(()));
    assert_eq!(
        crabcheck_verdict(CrabcheckEnd::Failed("(Needle(1), [2])".to_string())),
        Err("((Needle(1), [2]))".to_string())
    );
    assert_eq!(crabcheck_verdict(CrabcheckEnd::TimedOut), Err("crabcheck timed out".to_string()));
    assert_eq!(
        crabcheck_verdict(CrabcheckEnd::GaveUp { passed: 3, discarded: 40 }),
        Err("crabcheck gave up: passed=3, discarded=40".to_string())
    );
    assert_eq!(
        crabcheck_verdict(CrabcheckEnd::Aborted("x".to_string())),
        Err("crabcheck aborted: x".to_string())
    );
}

#[test]
fn failure_prefix_is_stripped_once() {
    assert_eq!(strip_failure_prefix("Property test failed: (1 [2])"), "(1 [2])");
    assert_eq!(strip_failure_prefix("Property test failed: "), "");
    assert_eq!(strip_failure_prefix("Property test failed:"), "Property test failed:");
    assert_eq!(strip_failure_prefix("other"), "other");
    assert_eq!(strip_failure_prefix("é Property test failed: x"), "é Property test failed: x");
}
