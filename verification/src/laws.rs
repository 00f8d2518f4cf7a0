//! Laws of the search routines, over the spec functions that their
//! contracts use.

use vstd::prelude::*;
use crate::json::{
    escaped, escaped_char, hex_char, hex_value, json_decode_str, json_quoted, json_unescape,
};
use crate::harness::{combined, Metrics};
use crate::json::{json_line_text, json_quoted_or_null};
use crate::positions::{lemma_positions_exact, match_positions, seq_first, seq_last};
use crate::text::{
    all_digits, decimal_digits, digit_char, digit_value, digits_value, is_digit, parsed_u64,
    unsigned_part,
};
use vstd::arithmetic::power::pow;

verus! {

/// The positions of a needle are exactly its hits: each one is a 0-based
/// index of the haystack that holds the needle, they increase strictly, and
/// every index that holds the needle is among them.
pub proof fn law_positions_are_the_hits(needle: u8, haystack: Seq<u8>)
    requires
        haystack.len() <= usize::MAX,
    ensures
        forall|k: int|
            0 <= k < match_positions(needle, haystack).len() ==> {
                let p = #[trigger] match_positions(needle, haystack)[k];
                &&& p < haystack.len()
                &&& haystack[p as int] == needle
            },
        forall|k1: int, k2: int|
            0 <= k1 < k2 < match_positions(needle, haystack).len() ==> match_positions(
                needle,
                haystack,
            )[k1] < match_positions(needle, haystack)[k2],
        forall|i: int|
            0 <= i < haystack.len() && haystack[i] == needle ==> match_positions(
                needle,
                haystack,
            ).contains(i as usize),
{
    lemma_positions_exact(needle, haystack, 0, haystack.len() as int);
}

/// The first position found from the front is the last one found from the
/// back, and the other way round: `memchr` agrees with the last position
/// that reverse iteration hands out, and `memrchr` with the first.
pub proof fn law_ends_of_reverse_iteration(needle: u8, haystack: Seq<u8>)
    ensures
        seq_first(match_positions(needle, haystack)) == seq_last(
            match_positions(needle, haystack).reverse(),
        ),
        seq_last(match_positions(needle, haystack)) == seq_first(
            match_positions(needle, haystack).reverse(),
        ),
{
    let s = match_positions(needle, haystack);
    if s.len() > 0 {
        assert(s.reverse().last() == s[0]);
        assert(s.reverse()[0] == s.last());
    }
}

/// Where a double-ended walk over `s` stands after the steps `steps`
/// (`true` takes from the front, as `next` does; `false` from the back, as
/// `next_back` does): what the front handed out, in order; what remains;
/// and what the back handed out, in order. A step on nothing remaining
/// hands out nothing.
pub open spec fn walk(s: Seq<usize>, steps: Seq<bool>) -> (Seq<usize>, Seq<usize>, Seq<usize>)
    decreases steps.len(),
{
    if steps.len() == 0 {
        (Seq::empty(), s, Seq::empty())
    } else {
        let (front, rest, back) = walk(s, steps.drop_last());
        if rest.len() == 0 {
            (front, rest, back)
        } else if steps.last() {
            (front.push(rest[0]), rest.drop_first(), back)
        } else {
            (front, rest.drop_last(), back.push(rest.last()))
        }
    }
}

/// However the steps of a double-ended walk interleave, every position is
/// handed out once and in its place: what the front handed out, then what
/// remains, then what the back handed out read backwards, is the whole
/// sequence.
pub proof fn law_walk_hands_out_each_once(s: Seq<usize>, steps: Seq<bool>)
    ensures
        walk(s, steps).0 + walk(s, steps).1 + walk(s, steps).2.reverse() == s,
    decreases steps.len(),
{
    if steps.len() > 0 {
        law_walk_hands_out_each_once(s, steps.drop_last());
        let (front, rest, back) = walk(s, steps.drop_last());
        if rest.len() > 0 {
            if steps.last() {
                assert(front.push(rest[0]) + rest.drop_first() =~= front + rest);
            } else {
                assert(rest.drop_last() + back.push(rest.last()).reverse() =~= rest
                    + back.reverse());
                assert(front + rest.drop_last() + back.push(rest.last()).reverse() =~= front
                    + rest + back.reverse());
            }
        }
    } else {
        assert(Seq::<usize>::empty() + s + Seq::<usize>::empty().reverse() =~= s);
    }
}

/// Escaping a concatenation escapes each part.
proof fn lemma_escaped_concat(a: Seq<char>, b: Seq<char>)
    ensures
        escaped(a + b) == escaped(a) + escaped(b),
    decreases b.len(),
{
    if b.len() == 0 {
        assert(a + b =~= a);
        assert(escaped(a) + escaped(b) =~= escaped(a));
    } else {
        lemma_escaped_concat(a, b.drop_last());
        assert((a + b).drop_last() =~= a + b.drop_last());
        assert((a + b).last() == b.last());
        assert(escaped(a) + escaped(b.drop_last()) + escaped_char(b.last()) =~= escaped(a) + (
        escaped(b.drop_last()) + escaped_char(b.last())));
    }
}

/// A hexadecimal digit character reads back as its value.
proof fn lemma_hex_round_trip(d: nat)
    requires
        d < 16,
    ensures
        hex_value(hex_char(d)) == Some(d),
{
}

/// Decoding an escaped character in front of more text gives the character
/// in front of what that text decodes to.
proof fn lemma_unescape_char(c: char, r: Seq<char>)
    ensures
        json_unescape(escaped_char(c) + r) == match json_unescape(r) {
            Some(x) => Some(seq![c] + x),
            None => None,
        },
{
    let t = escaped_char(c) + r;
    if c == '"' || c == '\\' || c == '\n' || c == '\r' || c == '\t' {
        assert(t.skip(2) =~= r);
    } else if (c as nat) < 0x20 {
        let n = c as nat;
        lemma_hex_round_trip(n / 16);
        lemma_hex_round_trip(n % 16);
        assert(hex_value('0') == Some(0nat));
        assert(t[2] == '0' && t[3] == '0');
        assert(t[4] == hex_char(n / 16) && t[5] == hex_char(n % 16));
        assert(n / 16 * 16 + n % 16 == n);
        assert(t.skip(6) =~= r);
        assert((n as char) == c);
    } else {
        assert(t.drop_first() =~= r);
    }
}

/// The inside of a JSON string literal decodes back to the escaped text.
proof fn lemma_unescape_escaped(s: Seq<char>)
    ensures
        json_unescape(escaped(s)) == Some(s),
    decreases s.len(),
{
    if s.len() > 0 {
        let rest = s.drop_first();
        lemma_unescape_escaped(rest);
        assert(s =~= seq![s[0]] + rest);
        lemma_escaped_concat(seq![s[0]], rest);
        assert(seq![s[0]].drop_last() =~= Seq::<char>::empty());
        assert(escaped(Seq::<char>::empty()) == Seq::<char>::empty());
        assert(seq![s[0]].last() == s[0]);
        assert(escaped(seq![s[0]]) == escaped(Seq::<char>::empty()) + escaped_char(s[0]));
        assert(escaped(seq![s[0]]) =~= escaped_char(s[0]));
        lemma_unescape_char(s[0], escaped(rest));
        assert(seq![s[0]] + rest =~= s);
    }
}

/// No character of the escaped text lies below U+0020.
proof fn lemma_escaped_printable(s: Seq<char>)
    ensures
        forall|i: int| 0 <= i < escaped(s).len() ==> (#[trigger] escaped(s)[i] as nat) >= 0x20,
    decreases s.len(),
{
    if s.len() > 0 {
        lemma_escaped_printable(s.drop_last());
        let c = s.last();
        let e = escaped_char(c);
        if (c as nat) < 0x20 && c != '\n' && c != '\r' && c != '\t' {
            let n = c as nat;
            assert(hex_char(n / 16) as nat >= 0x30);
            assert(hex_char(n % 16) as nat >= 0x30);
        }
        assert forall|j: int| 0 <= j < e.len() implies (#[trigger] e[j] as nat) >= 0x20 by {}
        let a = escaped(s.drop_last());
        assert forall|i: int| 0 <= i < escaped(s).len() implies (#[trigger] escaped(s)[i] as nat)
            >= 0x20 by {
            if i < a.len() {
                assert(escaped(s)[i] == a[i]);
            } else {
                assert(escaped(s)[i] == e[i - a.len()]);
            }
        }
    }
}

/// What `json_str` writes is a JSON string literal that decodes back to the
/// text it was given: it starts and ends with a double quote, holds no
/// character below U+0020, and reads back as exactly that text.
pub proof fn law_json_str_decodes_back(s: Seq<char>)
    ensures
        json_quoted(s).len() >= 2,
        json_quoted(s)[0] == '"',
        json_quoted(s).last() == '"',
        forall|i: int| 0 <= i < json_quoted(s).len() ==> (#[trigger] json_quoted(s)[i] as nat)
            >= 0x20,
        json_decode_str(json_quoted(s)) == Some(s),
{
    let q = json_quoted(s);
    let e = escaped(s);
    lemma_escaped_printable(s);
    lemma_unescape_escaped(s);
    assert(q.subrange(1, q.len() - 1) =~= e);
    assert forall|i: int| 0 <= i < q.len() implies (#[trigger] q[i] as nat) >= 0x20 by {
        if 1 <= i < q.len() - 1 {
            assert(q[i] == e[i - 1]);
        }
    }
}

/// Two measurements taken together add up both the inputs tried and the
/// time taken.
pub proof fn law_combined_adds_up(a: Metrics, b: Metrics)
    requires
        a.inputs + b.inputs <= u64::MAX,
        a.elapsed_us + b.elapsed_us <= u128::MAX,
    ensures
        combined(a, b).inputs == a.inputs + b.inputs,
        combined(a, b).elapsed_us == a.elapsed_us + b.elapsed_us,
{
}

/// A single digit denotes its own value.
pub proof fn law_digit_value(c: char)
    requires
        is_digit(c),
    ensures
        digits_value(seq![c]) == (c as nat) - ('0' as nat),
{
    assert(seq![c].drop_last() =~= Seq::<char>::empty());
    assert(digits_value(Seq::<char>::empty()) == 0);
    assert(seq![c].last() == c);
}

/// Each digit stands for its place value: the digits `a` followed by the
/// digits `b` denote the number of `a` shifted left by the length of `b`,
/// plus the number of `b`.
pub proof fn law_digits_place_value(a: Seq<char>, b: Seq<char>)
    ensures
        digits_value(a + b) == digits_value(a) * pow(10, b.len()) + digits_value(b),
    decreases b.len(),
{
    if b.len() == 0 {
        assert(a + b =~= a);
        assert(pow(10, 0) == 1) by {
            vstd::arithmetic::power::lemma_pow0(10);
        }
    } else {
        let b1 = b.drop_last();
        law_digits_place_value(a, b1);
        assert((a + b).drop_last() =~= a + b1);
        assert((a + b).last() == b.last());
        vstd::arithmetic::power::lemma_pow_adds(10, b1.len(), 1);
        vstd::arithmetic::power::lemma_pow1(10);
        let x = digits_value(a);
        let p = pow(10, b1.len());
        let y = digits_value(b1);
        let d = digit_value(b.last());
        assert(pow(10, b.len()) == p * 10);
        assert((x * p + y) * 10 + d == x * (p * 10) + (y * 10 + d)) by (nonlinear_arith);
    }
}

/// The digit character for a digit reads back as that digit.
proof fn lemma_digit_round_trip(d: nat)
    requires
        d < 10,
    ensures
        digit_value(digit_char(d)) == d,
        is_digit(digit_char(d)),
{
}

/// The decimal text of `n` is a nonempty string of digits, without a
/// leading zero unless it is `0`, that denotes `n`.
pub proof fn law_decimal_digits_denote(n: nat)
    ensures
        decimal_digits(n).len() > 0,
        all_digits(decimal_digits(n)),
        digits_value(decimal_digits(n)) == n,
        decimal_digits(n)[0] == '0' ==> n == 0,
    decreases n,
{
    if n < 10 {
        lemma_digit_round_trip(n);
        assert(seq![digit_char(n)].drop_last() =~= Seq::<char>::empty());
        assert(digits_value(Seq::<char>::empty()) == 0);
        assert(seq![digit_char(n)].last() == digit_char(n));
    } else {
        law_decimal_digits_denote(n / 10);
        lemma_digit_round_trip(n % 10);
        let d = decimal_digits(n / 10);
        let e = d.push(digit_char(n % 10));
        assert(e.drop_last() =~= d);
        assert(e.last() == digit_char(n % 10));
        assert(e[0] == d[0]);
        assert forall|i: int| 0 <= i < e.len() implies is_digit(#[trigger] e[i]) by {
            if i < d.len() {
                assert(e[i] == d[i]);
            }
        }
    }
}

/// Reading the decimal text of a 64-bit number gives that number back.
pub proof fn law_parse_reads_decimal(n: u64)
    ensures
        parsed_u64(decimal_digits(n as nat)) == Some(n),
{
    law_decimal_digits_denote(n as nat);
    let d = decimal_digits(n as nat);
    assert(unsigned_part(d) == d);
}

/// Characters that escaping leaves alone.
proof fn lemma_escaped_plain(t: Seq<char>)
    requires
        forall|i: int|
            0 <= i < t.len() ==> (#[trigger] t[i] as nat) >= 0x20 && t[i] != '"' && t[i] != '\\',
    ensures
        escaped(t) == t,
    decreases t.len(),
{
    if t.len() > 0 {
        lemma_escaped_plain(t.drop_last());
        assert(t.last() == t[t.len() - 1]);
        assert(t.drop_last().push(t.last()) =~= t);
    }
}

/// The report line's `tests` field is the decimal text of the inputs tried,
/// and its `time` field is the decimal text of the whole time taken in
/// microseconds followed by `us`: each field holds digits that denote the
/// measured number.
pub proof fn law_json_line_fields_denote(
    tool: Seq<char>,
    property: Seq<char>,
    status: Seq<char>,
    inputs: u64,
    elapsed_us: u128,
    counterexample: Option<Seq<char>>,
    error: Option<Seq<char>>,
)
    ensures
        exists|pre: Seq<char>, tests: Seq<char>, time: Seq<char>, post: Seq<char>|
            {
                &&& json_line_text(
                    tool,
                    property,
                    status,
                    inputs,
                    elapsed_us,
                    counterexample,
                    error,
                ) == #[trigger] (pre + ",\"tests\":"@ + tests + ",\"discards\":0"@ + ",\"time\":\""@
                    + time + "us\""@ + post)
                &&& all_digits(tests) && tests.len() > 0 && digits_value(tests) == inputs
                &&& all_digits(time) && time.len() > 0 && digits_value(time) == elapsed_us
            },
{
    let tests = decimal_digits(inputs as nat);
    let time = decimal_digits(elapsed_us as nat);
    law_decimal_digits_denote(inputs as nat);
    law_decimal_digits_denote(elapsed_us as nat);
    reveal_strlit("us");
    reveal_strlit("us\"");
    reveal_strlit(",\"discards\":0,\"time\":");
    reveal_strlit(",\"discards\":0");
    reveal_strlit(",\"time\":\"");
    let tu = time + "us"@;
    assert forall|i: int|
        0 <= i < tu.len() implies (#[trigger] tu[i] as nat) >= 0x20 && tu[i] != '"' && tu[i]
        != '\\' by {
        if i < time.len() {
            assert(tu[i] == time[i]);
            assert(is_digit(time[i]));
        }
    }
    lemma_escaped_plain(tu);
    let pre = "{\"status\":"@ + json_quoted(status);
    let post = ",\"counterexample\":"@ + json_quoted_or_null(counterexample) + ",\"error\":"@
        + json_quoted_or_null(error) + ",\"tool\":"@ + json_quoted(tool) + ",\"property\":"@
        + json_quoted(property) + "}"@;
    assert(json_quoted(tu) =~= seq!['"'] + tu + seq!['"']);
    assert(",\"discards\":0,\"time\":"@ + seq!['"'] =~= ",\"discards\":0"@ + ",\"time\":\""@);
    assert("us"@ + seq!['"'] =~= "us\""@);
    assert(json_line_text(tool, property, status, inputs, elapsed_us, counterexample, error)
        =~= pre + ",\"tests\":"@ + tests + ",\"discards\":0"@ + ",\"time\":\""@ + time + "us\""@
        + post);
}

} // verus!
