//! The one-line JSON report of a run: string escaping and the line itself.

use vstd::prelude::*;
use crate::harness::Metrics;
use crate::text::{decimal_digits, push_char, push_decimal};

verus! {

/// The lowercase hexadecimal digit character for `d`.
pub open spec fn hex_char(d: nat) -> char {
    if d < 10 {
        ('0' as nat + d) as char
    } else {
        ('a' as nat + (d - 10)) as char
    }
}

/// How one character stands inside a JSON string literal.
pub open spec fn escaped_char(c: char) -> Seq<char> {
    if c == '"' {
        seq!['\\', '"']
    } else if c == '\\' {
        seq!['\\', '\\']
    } else if c == '\n' {
        seq!['\\', 'n']
    } else if c == '\r' {
        seq!['\\', 'r']
    } else if c == '\t' {
        seq!['\\', 't']
    } else if (c as nat) < 0x20 {
        seq!['\\', 'u', '0', '0', hex_char(c as nat / 16), hex_char(c as nat % 16)]
    } else {
        seq![c]
    }
}

/// Every character of `s`, each as it stands inside a JSON string literal.
pub open spec fn escaped(s: Seq<char>) -> Seq<char>
    decreases s.len(),
{
    if s.len() == 0 {
        Seq::empty()
    } else {
        escaped(s.drop_last()) + escaped_char(s.last())
    }
}

/// `s` as a JSON string literal: escaped and between double quotes.
pub open spec fn json_quoted(s: Seq<char>) -> Seq<char> {
    seq!['"'] + escaped(s) + seq!['"']
}

/// The value of a hexadecimal digit character, either case.
pub open spec fn hex_value(c: char) -> Option<nat> {
    if '0' <= c <= '9' {
        Some((c as nat - '0' as nat) as nat)
    } else if 'a' <= c <= 'f' {
        Some((c as nat - 'a' as nat + 10) as nat)
    } else if 'A' <= c <= 'F' {
        Some((c as nat - 'A' as nat + 10) as nat)
    } else {
        None
    }
}

/// The value of the four hexadecimal digits `t[at..at + 4]`.
pub open spec fn hex4_value(t: Seq<char>, at: int) -> Option<nat> {
    match (hex_value(t[at]), hex_value(t[at + 1]), hex_value(t[at + 2]), hex_value(t[at + 3])) {
        (Some(a), Some(b), Some(c), Some(d)) => Some(a * 4096 + b * 256 + c * 16 + d),
        _ => None,
    }
}

/// The character that a JSON escape `\x` stands for, for the one-letter
/// escapes.
pub open spec fn short_escape(c: char) -> Option<char> {
    if c == '"' {
        Some('"')
    } else if c == '\\' {
        Some('\\')
    } else if c == '/' {
        Some('/')
    } else if c == 'b' {
        Some('\u{8}')
    } else if c == 'f' {
        Some('\u{c}')
    } else if c == 'n' {
        Some('\n')
    } else if c == 'r' {
        Some('\r')
    } else if c == 't' {
        Some('\t')
    } else {
        None
    }
}

/// `c` in front of the decoded rest, or no text when the rest does not
/// decode.
pub open spec fn prepend(c: char, rest: Option<Seq<char>>) -> Option<Seq<char>> {
    match rest {
        Some(r) => Some(seq![c] + r),
        None => None,
    }
}

/// The text that the inside of a JSON string literal stands for, by the
/// JSON grammar: a backslash starts a one-letter escape or `\uXXXX` (a
/// surrogate pair as two such escapes); a double quote or a character below
/// U+0020 may not stand unescaped. `None` when `t` is no such text.
pub open spec fn json_unescape(t: Seq<char>) -> Option<Seq<char>>
    decreases t.len(),
{
    if t.len() == 0 {
        Some(Seq::empty())
    } else if t[0] == '\\' {
        if t.len() < 2 {
            None
        } else if short_escape(t[1]) is Some {
            prepend(short_escape(t[1])->0, json_unescape(t.skip(2)))
        } else if t[1] == 'u' && t.len() >= 6 && hex4_value(t, 2) is Some {
            let v = hex4_value(t, 2)->0;
            if v < 0xD800 || v > 0xDFFF {
                prepend(v as char, json_unescape(t.skip(6)))
            } else if v <= 0xDBFF && t.len() >= 12 && t[6] == '\\' && t[7] == 'u' && hex4_value(
                t,
                8,
            ) is Some && 0xDC00 <= hex4_value(t, 8)->0 <= 0xDFFF {
                let w = hex4_value(t, 8)->0;
                prepend(
                    (0x10000 + (v - 0xD800) * 0x400 + (w - 0xDC00)) as char,
                    json_unescape(t.skip(12)),
                )
            } else {
                None
            }
        } else {
            None
        }
    } else if t[0] == '"' || (t[0] as nat) < 0x20 {
        None
    } else {
        prepend(t[0], json_unescape(t.drop_first()))
    }
}

/// The text that a JSON string literal stands for: `t` between double
/// quotes, with its inside decoded. `None` when `t` is no JSON string
/// literal.
pub open spec fn json_decode_str(t: Seq<char>) -> Option<Seq<char>> {
    if t.len() >= 2 && t[0] == '"' && t.last() == '"' {
        json_unescape(t.subrange(1, t.len() - 1))
    } else {
        None
    }
}

/// A JSON string literal for `Some` text, or `null`.
pub open spec fn json_quoted_or_null(s: Option<Seq<char>>) -> Seq<char> {
    match s {
        Some(t) => json_quoted(t),
        None => "null"@,
    }
}

/// The one-line JSON report of a run.
pub open spec fn json_line_text(
    tool: Seq<char>,
    property: Seq<char>,
    status: Seq<char>,
    inputs: u64,
    elapsed_us: u128,
    counterexample: Option<Seq<char>>,
    error: Option<Seq<char>>,
) -> Seq<char> {
    "{\"status\":"@ + json_quoted(status) + ",\"tests\":"@ + decimal_digits(inputs as nat)
        + ",\"discards\":0,\"time\":"@ + json_quoted(decimal_digits(elapsed_us as nat) + "us"@)
        + ",\"counterexample\":"@ + json_quoted_or_null(counterexample) + ",\"error\":"@
        + json_quoted_or_null(error) + ",\"tool\":"@ + json_quoted(tool) + ",\"property\":"@
        + json_quoted(property) + "}"@
}

/// The view of an optional string.
pub open spec fn opt_view(s: Option<&str>) -> Option<Seq<char>> {
    match s {
        Some(t) => Some(t@),
        None => None,
    }
}

/// The lowercase hexadecimal digit character for `d`.
fn hex_digit(d: u32) -> (c: char)
    requires
        d < 16,
    ensures
        c == hex_char(d as nat),
{
    match d {
        0 => '0',
        1 => '1',
        2 => '2',
        3 => '3',
        4 => '4',
        5 => '5',
        6 => '6',
        7 => '7',
        8 => '8',
        9 => '9',
        10 => 'a',
        11 => 'b',
        12 => 'c',
        13 => 'd',
        14 => 'e',
        _ => 'f',
    }
}

/// Appends `c` to `out` as it stands inside a JSON string literal.
fn push_escaped(out: &mut String, c: char)
    ensures
        final(out)@ == old(out)@ + escaped_char(c),
{
    if c == '"' {
        out.append("\\\"");
    } else if c == '\\' {
        out.append("\\\\");
    } else if c == '\n' {
        out.append("\\n");
    } else if c == '\r' {
        out.append("\\r");
    } else if c == '\t' {
        out.append("\\t");
    } else if (c as u32) < 0x20 {
        let v = c as u32;
        out.append("\\u00");
        push_char(out, hex_digit(v / 16));
        push_char(out, hex_digit(v % 16));
    } else {
        push_char(out, c);
    }
    proof {
        reveal_strlit("\\\"");
        reveal_strlit("\\\\");
        reveal_strlit("\\n");
        reveal_strlit("\\r");
        reveal_strlit("\\t");
        reveal_strlit("\\u00");
        assert(final(out)@ =~= old(out)@ + escaped_char(c));
    }
}

/// Appends `s` to `out` as a JSON string literal.
fn push_json_str(out: &mut String, s: &str)
    ensures
        final(out)@ == old(out)@ + json_quoted(s@),
{
    let ghost start = old(out)@;
    push_char(out, '"');
    let n = s.unicode_len();
    let mut i: usize = 0;
    while i < n
        invariant
            n == s@.len(),
            i <= n,
            out@ == start + seq!['"'] + escaped(s@.take(i as int)),
        decreases n - i,
    {
        let c = s.get_char(i);
        push_escaped(out, c);
        proof {
            assert(s@.take(i + 1).drop_last() =~= s@.take(i as int));
            assert(start + seq!['"'] + escaped(s@.take(i as int)) + escaped_char(c) =~= start
                + seq!['"'] + escaped(s@.take(i + 1)));
        }
        i = i + 1;
    }
    push_char(out, '"');
    assert(s@.take(n as int) =~= s@);
    assert(out@ =~= start + json_quoted(s@));
}

/// `s` as a JSON string literal: between double quotes, with `"`, `\`,
/// newline, carriage return and tab escaped by a backslash, and the other
/// control characters below U+0020 written as `\u00XX`.
pub fn json_str(s: &str) -> (r: String)
    ensures
        r@ == json_quoted(s@),
{
    let mut out = String::new();
    push_json_str(&mut out, s);
    out
}

/// Appends a JSON string literal for `Some` text, or `null`.
fn push_json_str_or_null(out: &mut String, s: Option<&str>)
    ensures
        final(out)@ == old(out)@ + json_quoted_or_null(opt_view(s)),
{
    match s {
        Some(t) => push_json_str(out, t),
        None => {
            out.append("null");
        },
    }
}

/// The one-line JSON report of a run: its status, the number of inputs
/// tried, the time taken in microseconds, the counterexample and error if
/// any, the tool and the property.
pub fn json_line(
    tool: &str,
    property: &str,
    status: &str,
    metrics: Metrics,
    counterexample: Option<&str>,
    error: Option<&str>,
) -> (r: String)
    ensures
        r@ == json_line_text(
            tool@,
            property@,
            status@,
            metrics.inputs,
            metrics.elapsed_us,
            opt_view(counterexample),
            opt_view(error),
        ),
{
    let mut out = String::new();
    out.append("{\"status\":");
    push_json_str(&mut out, status);
    out.append(",\"tests\":");
    push_decimal(&mut out, metrics.inputs as u128);
    out.append(",\"discards\":0,\"time\":");
    let mut time = String::new();
    push_decimal(&mut time, metrics.elapsed_us);
    time.append("us");
    push_json_str(&mut out, time.as_str());
    out.append(",\"counterexample\":");
    push_json_str_or_null(&mut out, counterexample);
    out.append(",\"error\":");
    push_json_str_or_null(&mut out, error);
    out.append(",\"tool\":");
    push_json_str(&mut out, tool);
    out.append(",\"property\":");
    push_json_str(&mut out, property);
    out.append("}");
    assert(out@ =~= json_line_text(
        tool@,
        property@,
        status@,
        metrics.inputs,
        metrics.elapsed_us,
        opt_view(counterexample),
        opt_view(error),
    ));
    out
}

} // verus!
