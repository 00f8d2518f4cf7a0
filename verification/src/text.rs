//! Text helpers: comparing strings, writing and reading unsigned decimal
//! numbers.

use vstd::prelude::*;

verus! {

/// Calls `String::push`, which appends one character to the string.
#[verifier::external_body]
pub(crate) fn push_char(s: &mut String, c: char)
    ensures
        final(s)@ == old(s)@.push(c),
{
    s.push(c)
}

/// Whether two strings hold the same characters.
pub fn str_eq(a: &str, b: &str) -> (r: bool)
    ensures
        r == (a@ == b@),
{
    let n = a.unicode_len();
    let m = b.unicode_len();
    if n != m {
        return false;
    }
    let mut i: usize = 0;
    while i < n
        invariant
            n == a@.len(),
            m == b@.len(),
            n == m,
            i <= n,
            forall|k: int| 0 <= k < i ==> a@[k] == b@[k],
        decreases n - i,
    {
        if a.get_char(i) != b.get_char(i) {
            return false;
        }
        i = i + 1;
    }
    assert(a@ =~= b@);
    true
}

/// The decimal digit character for `d`.
pub open spec fn digit_char(d: nat) -> char {
    ('0' as nat + d) as char
}

/// Whether `c` is one of the ASCII digits `0` to `9`.
pub open spec fn is_digit(c: char) -> bool {
    '0' <= c <= '9'
}

/// The value of the decimal digit character `c`.
pub open spec fn digit_value(c: char) -> nat {
    (c as nat - '0' as nat) as nat
}

/// The decimal digits of `n`, most significant first, without leading
/// zeros (`0` is the single digit `0`).
pub open spec fn decimal_digits(n: nat) -> Seq<char>
    decreases n,
{
    if n < 10 {
        seq![digit_char(n)]
    } else {
        decimal_digits(n / 10).push(digit_char(n % 10))
    }
}

/// The number that a sequence of decimal digits denotes.
pub open spec fn digits_value(d: Seq<char>) -> nat
    decreases d.len(),
{
    if d.len() == 0 {
        0
    } else {
        digits_value(d.drop_last()) * 10 + digit_value(d.last())
    }
}

/// `s` without a leading `+`.
pub open spec fn unsigned_part(s: Seq<char>) -> Seq<char> {
    if s.len() > 0 && s[0] == '+' {
        s.drop_first()
    } else {
        s
    }
}

/// Whether every character of `d` is a digit.
pub open spec fn all_digits(d: Seq<char>) -> bool {
    forall|i: int| 0 <= i < d.len() ==> is_digit(#[trigger] d[i])
}

/// What reading `s` as an unsigned 64-bit decimal number gives: an optional
/// `+` followed by one or more digits `0`-`9` whose value fits in 64 bits;
/// anything else is no number.
pub open spec fn parsed_u64(s: Seq<char>) -> Option<u64> {
    let d = unsigned_part(s);
    if d.len() > 0 && all_digits(d) && digits_value(d) <= u64::MAX {
        Some(digits_value(d) as u64)
    } else {
        None
    }
}

/// The character of the decimal digit `d`.
fn digit_to_char(d: u8) -> (c: char)
    requires
        d < 10,
    ensures
        c == digit_char(d as nat),
{
    match d {
        0 => '0',
        1 => '1',
        2 => '2',
        3 => '3',
        4 => '4',
        5 => '5',
        6 => '6',
        7 => '7',
        8 => '8',
        _ => '9',
    }
}

/// Appends the decimal digits of `n` to `out`.
pub fn push_decimal(out: &mut String, n: u128)
    ensures
        final(out)@ == old(out)@ + decimal_digits(n as nat),
    decreases n,
{
    if n >= 10 {
        push_decimal(out, n / 10);
    }
    let c = digit_to_char((n % 10) as u8);
    push_char(out, c);
    proof {
        if n >= 10 {
            assert(decimal_digits(n as nat) == decimal_digits((n / 10) as nat).push(
                digit_char((n % 10) as nat),
            ));
            assert(old(out)@ + decimal_digits((n / 10) as nat) + seq![c] =~= old(out)@
                + decimal_digits(n as nat));
        } else {
            assert(old(out)@.push(c) =~= old(out)@ + decimal_digits(n as nat));
        }
    }
}

/// Reads `s` as an unsigned 64-bit decimal number: an optional `+`, then one
/// or more digits, with a value that fits in 64 bits.
pub fn parse_u64(s: &str) -> (r: Option<u64>)
    ensures
        r == parsed_u64(s@),
{
    let n = s.unicode_len();
    let start: usize = if n > 0 && s.get_char(0) == '+' {
        1
    } else {
        0
    };
    let ghost d = unsigned_part(s@);
    assert(d =~= s@.subrange(start as int, n as int));
    if start == n {
        return None;
    }
    let mut value: u64 = 0;
    let mut i: usize = start;
    while i < n
        invariant
            n == s@.len(),
            start <= i <= n,
            d == s@.subrange(start as int, n as int),
            d == unsigned_part(s@),
            forall|k: int| start <= k < i ==> is_digit(#[trigger] s@[k]),
            value == digits_value(s@.subrange(start as int, i as int)),
        decreases n - i,
    {
        let c = s.get_char(i);
        if !('0' <= c && c <= '9') {
            proof {
                assert(d[i - start] == s@[i as int]);
                lemma_non_digit_means_none(s@, d, i - start);
            }
            return None;
        }
        let v = (c as u32 - '0' as u32) as u64;
        proof {
            assert(s@.subrange(start as int, i + 1).drop_last() =~= s@.subrange(
                start as int,
                i as int,
            ));
        }
        match value.checked_mul(10) {
            Some(t) => match t.checked_add(v) {
                Some(u) => {
                    value = u;
                },
                None => {
                    proof {
                        lemma_overflow_means_none(s@, d, start as int, i as int);
                    }
                    return None;
                },
            },
            None => {
                proof {
                    lemma_overflow_means_none(s@, d, start as int, i as int);
                }
                return None;
            },
        }
        i = i + 1;
    }
    assert(s@.subrange(start as int, n as int) =~= d);
    Some(value)
}

/// Once the digits read so far exceed 64 bits, the text is no number.
proof fn lemma_overflow_means_none(s: Seq<char>, d: Seq<char>, start: int, i: int)
    requires
        d == unsigned_part(s),
        0 <= start <= i < s.len(),
        d == s.subrange(start, s.len() as int),
        digits_value(s.subrange(start, i + 1)) > u64::MAX,
    ensures
        parsed_u64(s) is None,
{
    if forall|k: int| 0 <= k < d.len() ==> is_digit(#[trigger] d[k]) {
        lemma_digits_value_prefix_le(d, i + 1 - start);
        assert(d.take(i + 1 - start) =~= s.subrange(start, i + 1));
        assert(digits_value(d) > u64::MAX);
    } else {
        let j = choose|j: int| 0 <= j < d.len() && !is_digit(d[j]);
        lemma_non_digit_means_none(s, d, j);
    }
}

/// A character other than a digit after the optional sign makes the text no
/// number.
proof fn lemma_non_digit_means_none(s: Seq<char>, d: Seq<char>, j: int)
    requires
        d == unsigned_part(s),
        0 <= j < d.len(),
        !is_digit(d[j]),
    ensures
        parsed_u64(s) is None,
{
    assert(!all_digits(d));
}

/// The value of a prefix of a digit sequence is at most the value of the
/// whole sequence.
proof fn lemma_digits_value_prefix_le(d: Seq<char>, k: int)
    requires
        0 <= k <= d.len(),
        forall|i: int| 0 <= i < d.len() ==> is_digit(#[trigger] d[i]),
    ensures
        digits_value(d.take(k)) <= digits_value(d),
    decreases d.len() - k,
{
    if k < d.len() {
        lemma_digits_value_prefix_le(d, k + 1);
        assert(d.take(k + 1).drop_last() =~= d.take(k));
        assert(digits_value(d.take(k + 1)) == digits_value(d.take(k)) * 10 + digit_value(
            d.take(k + 1).last(),
        ));
    } else {
        assert(d.take(k) =~= d);
    }
}

/// The numbers of a list of `usize`s.
pub open spec fn usize_nats(s: Seq<usize>) -> Seq<nat> {
    s.map_values(|x: usize| x as nat)
}

/// The numbers of a list of bytes.
pub open spec fn byte_nats(s: Seq<u8>) -> Seq<nat> {
    s.map_values(|x: u8| x as nat)
}

/// The items of a list of numbers in decimal, separated by `, `.
pub open spec fn list_items_text(s: Seq<nat>) -> Seq<char>
    decreases s.len(),
{
    if s.len() == 0 {
        Seq::empty()
    } else if s.len() == 1 {
        decimal_digits(s[0])
    } else {
        list_items_text(s.drop_last()) + ", "@ + decimal_digits(s.last())
    }
}

/// A list of numbers as `Debug` writes it: `[a, b, c]`, or `[]`.
pub open spec fn list_text(s: Seq<nat>) -> Seq<char> {
    "["@ + list_items_text(s) + "]"@
}

/// The items text of a one-longer prefix.
proof fn lemma_list_items_step(s: Seq<nat>, i: int)
    requires
        0 <= i < s.len(),
    ensures
        list_items_text(s.take(i + 1)) == (if i == 0 {
            decimal_digits(s[0])
        } else {
            list_items_text(s.take(i)) + ", "@ + decimal_digits(s[i])
        }),
{
    assert(s.take(i + 1).drop_last() =~= s.take(i));
    assert(s.take(i + 1).last() == s[i]);
    if i == 0 {
        assert(s.take(1)[0] == s[0]);
    }
}

/// Appends a list of `usize`s as `Debug` writes it: `[a, b, c]`.
pub fn push_usize_list(out: &mut String, v: &Vec<usize>)
    ensures
        final(out)@ == old(out)@ + list_text(usize_nats(v@)),
{
    let ghost start = old(out)@;
    let ghost nums = usize_nats(v@);
    out.append("[");
    let n = v.len();
    let mut i: usize = 0;
    while i < n
        invariant
            n == v@.len(),
            nums == usize_nats(v@),
            nums.len() == n,
            i <= n,
            out@ == start + "["@ + list_items_text(nums.take(i as int)),
        decreases n - i,
    {
        proof {
            lemma_list_items_step(nums, i as int);
        }
        if i > 0 {
            out.append(", ");
        }
        push_decimal(out, v[i] as u128);
        proof {
            if i > 0 {
                assert(start + "["@ + list_items_text(nums.take(i as int)) + ", "@ + decimal_digits(
                    v@[i as int] as nat,
                ) =~= start + "["@ + list_items_text(nums.take(i + 1)));
            } else {
                assert(start + "["@ + list_items_text(nums.take(i as int)) + decimal_digits(
                    v@[i as int] as nat,
                ) =~= start + "["@ + list_items_text(nums.take(i + 1)));
            }
        }
        i = i + 1;
    }
    out.append("]");
    assert(nums.take(n as int) =~= nums);
    assert(out@ =~= start + list_text(nums));
}

/// Appends a list of bytes as `Debug` writes it: `[a, b, c]`.
pub fn push_byte_list(out: &mut String, v: &Vec<u8>)
    ensures
        final(out)@ == old(out)@ + list_text(byte_nats(v@)),
{
    let ghost start = old(out)@;
    let ghost nums = byte_nats(v@);
    out.append("[");
    let n = v.len();
    let mut i: usize = 0;
    while i < n
        invariant
            n == v@.len(),
            nums == byte_nats(v@),
            nums.len() == n,
            i <= n,
            out@ == start + "["@ + list_items_text(nums.take(i as int)),
        decreases n - i,
    {
        proof {
            lemma_list_items_step(nums, i as int);
        }
        if i > 0 {
            out.append(", ");
        }
        push_decimal(out, v[i] as u128);
        proof {
            if i > 0 {
                assert(start + "["@ + list_items_text(nums.take(i as int)) + ", "@ + decimal_digits(
                    v@[i as int] as nat,
                ) =~= start + "["@ + list_items_text(nums.take(i + 1)));
            } else {
                assert(start + "["@ + list_items_text(nums.take(i as int)) + decimal_digits(
                    v@[i as int] as nat,
                ) =~= start + "["@ + list_items_text(nums.take(i + 1)));
            }
        }
        i = i + 1;
    }
    out.append("]");
    assert(nums.take(n as int) =~= nums);
    assert(out@ =~= start + list_text(nums));
}

} // verus!
