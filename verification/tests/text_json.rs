//! Concrete cases of the text helpers and the JSON report line.

use memchr_etna::etna::{disagreement_message, mismatch_message};
use memchr_etna::harness::Metrics;
use memchr_etna::json::{json_line, json_str};
use memchr_etna::text::{parse_u64, push_decimal, str_eq};

#[test]
fn str_eq_compares_characters() {
    assert!(str_eq("abc", "abc"));
    assert!(str_eq("", ""));
    assert!(!str_eq("abc", "abd"));
    assert!(!str_eq("abc", "ab"));
    assert!(str_eq("héllo", "héllo"));
}

#[test]
fn decimal_text() {
    for n in [0u128, 7, 10, 99, 1234567890, u64::MAX as u128, u128::MAX] {
        let mut s = String::from("x");
        push_decimal(&mut s, n);
        assert_eq!(s, format!("x{}", n));
    }
}

#[test]
fn parse_u64_cases() {
    assert_eq!(parse_u64("42"), Some(42));
    assert_eq!(parse_u64("+42"), Some(42));
    assert_eq!(parse_u64("4 2"), None);
    assert_eq!(parse_u64("٣"), None);
}

#[test]
fn json_str_escapes() {
    assert_eq!(json_str("plain"), "\"plain\"");
    assert_eq!(json_str("a\"b\\c"), "\"a\\\"b\\\\c\"");
    assert_eq!(json_str("l1\nl2\r\t"), "\"l1\\nl2\\r\\t\"");
    assert_eq!(json_str("\u{1}\u{1f}"), "\"\\u0001\\u001f\"");
    assert_eq!(json_str("é\u{7f}"), "\"é\u{7f}\"");
    assert_eq!(json_str(""), "\"\"");
}

#[test]
fn json_line_of_a_failed_run() {
    let m = Metrics { inputs: 12, elapsed_us: 345 };
    let line = json_line("etna", "All", "failed", m, Some("(98 [1])"), None);
    assert_eq!(
        line,
        "{\"status\":\"failed\",\"tests\":12,\"discards\":0,\"time\":\"345us\",\"counterexample\":\"(98 [1])\",\"error\":null,\"tool\":\"etna\",\"property\":\"All\"}"
    );
    let line = json_line("x", "y", "aborted", Metrics { inputs: 0, elapsed_us: 0 }, None, Some("bad\n"));
    assert_eq!(
        line,
        "{\"status\":\"aborted\",\"tests\":0,\"discards\":0,\"time\":\"0us\",\"counterexample\":null,\"error\":\"bad\\n\",\"tool\":\"x\",\"property\":\"y\"}"
    );
}

#[test]
fn json_str_output_is_a_clean_literal() {
    for s in ["", "a\"b", "\u{0}\u{1f}\n\r\t\\", "é\u{7f}x", "\u{8}\u{c}"] {
        let out = json_str(s);
        assert!(out.starts_with('"') && out.ends_with('"') && out.len() >= 2);
        assert!(out.chars().all(|c| c as u32 >= 0x20));
    }
}

#[test]
fn messages_match_format() {
    let got = vec![1usize, 22, 333];
    let expected: Vec<usize> = vec![];
    let hay = vec![0u8, 98, 255];
    assert_eq!(
        mismatch_message("memchr_iter", &got, &expected, 98, &hay),
        format!(
            "{} mismatch: got={:?} expected={:?} needle={} haystack={:?}",
            "memchr_iter", got, expected, 98u8, hay
        )
    );
    assert_eq!(
        disagreement_message("memrchr", "first(memrchr_iter)", 7, &hay),
        format!("{} disagrees with {}: needle={} haystack={:?}", "memrchr", "first(memrchr_iter)", 7u8, hay)
    );
    assert_eq!(
        mismatch_message("x", &vec![5], &vec![5, 6], 0, &vec![]),
        "x mismatch: got=[5] expected=[5, 6] needle=0 haystack=[]"
    );
}
