//! The decisions of the property runner: what a run measured, how a
//! property's result is read by each tool, which tool and property a name
//! selects, the canonical inputs and the input pools.

use vstd::prelude::*;
use crate::etna::{
    property_memchr_iter_matches_naive, property_memrchr_iter_matches_naive, PropertyResult,
};
use crate::json::opt_view;
use crate::text::{decimal_digits, parse_u64, parsed_u64, push_decimal, str_eq};

verus! {

/// What a run measured: the number of inputs tried and the time taken.
#[derive(Clone, Copy)]
pub struct Metrics {
    /// The number of inputs tried.
    pub inputs: u64,
    /// The time taken, in microseconds.
    pub elapsed_us: u128,
}

/// Two measurements taken together.
pub open spec fn combined(a: Metrics, b: Metrics) -> Metrics {
    Metrics { inputs: (a.inputs + b.inputs) as u64, elapsed_us: (a.elapsed_us + b.elapsed_us) as u128 }
}

impl Default for Metrics {
    /// No inputs tried, no time taken.
    fn default() -> (r: Self)
        ensures
            r.inputs == 0 && r.elapsed_us == 0,
    {
        Metrics { inputs: 0, elapsed_us: 0 }
    }
}

impl Metrics {
    /// The inputs and the time of both runs, added up.
    pub fn combine(self, other: Metrics) -> (r: Metrics)
        requires
            self.inputs + other.inputs <= u64::MAX,
            self.elapsed_us + other.elapsed_us <= u128::MAX,
        ensures
            r == combined(self, other),
            r.inputs == self.inputs + other.inputs,
            r.elapsed_us == self.elapsed_us + other.elapsed_us,
    {
        Metrics {
            inputs: self.inputs + other.inputs,
            elapsed_us: self.elapsed_us + other.elapsed_us,
        }
    }
}

/// A property's result as a run reads it: a pass or a discard is no
/// failure; a failure carries its message.
pub fn to_err(r: PropertyResult) -> (e: Result<(), String>)
    ensures
        match r {
            PropertyResult::Fail(m) => e == Err::<(), String>(m),
            _ => e is Ok,
        },
{
    match r {
        PropertyResult::Pass | PropertyResult::Discard => Ok(()),
        PropertyResult::Fail(m) => Err(m),
    }
}

/// A property's result as a checker that may discard reads it: `Some(true)`
/// for a pass, `Some(false)` for a failure, `None` for a discard.
pub fn to_opt(r: PropertyResult) -> (o: Option<bool>)
    ensures
        o == match r {
            PropertyResult::Pass => Some(true),
            PropertyResult::Fail(_) => Some(false),
            PropertyResult::Discard => None::<bool>,
        },
{
    match r {
        PropertyResult::Pass => Some(true),
        PropertyResult::Fail(_) => Some(false),
        PropertyResult::Discard => None,
    }
}

/// The haystack `aaaabaaaabaaaab`: three hits of `b`, none at the start.
pub fn canonical_haystack_multi_hit() -> (v: Vec<u8>)
    ensures
        v@ == seq![
            0x61u8, 0x61u8, 0x61u8, 0x61u8, 0x62u8, 0x61u8, 0x61u8, 0x61u8, 0x61u8, 0x62u8,
            0x61u8, 0x61u8, 0x61u8, 0x61u8, 0x62u8
        ],
{
    vec![
        0x61u8, 0x61u8, 0x61u8, 0x61u8, 0x62u8, 0x61u8, 0x61u8, 0x61u8, 0x61u8, 0x62u8, 0x61u8,
        0x61u8, 0x61u8, 0x61u8, 0x62u8,
    ]
}

/// The haystack `a____a`: two hits of `a`, at both ends.
pub fn canonical_haystack_two_separated() -> (v: Vec<u8>)
    ensures
        v@ == seq![0x61u8, 0x5fu8, 0x5fu8, 0x5fu8, 0x5fu8, 0x61u8],
{
    vec![0x61u8, 0x5fu8, 0x5fu8, 0x5fu8, 0x5fu8, 0x61u8]
}

/// Forward iteration checked on the canonical multi-hit haystack, needle
/// `b`; it passes.
pub fn check_memchr_iter_matches_naive() -> (r: Result<(), String>)
    ensures
        r is Ok,
{
    to_err(property_memchr_iter_matches_naive(0x62u8, canonical_haystack_multi_hit()))
}

/// Reverse iteration checked on the canonical two-hit haystack, needle `a`;
/// it passes.
pub fn check_memrchr_iter_matches_naive() -> (r: Result<(), String>)
    ensures
        r is Ok,
{
    to_err(property_memrchr_iter_matches_naive(0x61u8, canonical_haystack_two_separated()))
}

/// What running one property gives: whether it held, and what the run
/// measured.
pub type Outcome = (Result<(), String>, Metrics);

/// Runs `run` on each property in turn, `MemchrIterMatchesNaive` then
/// `MemrchrIterMatchesNaive`, adding up what the runs measured, and stops at
/// the first failure, which it returns with the measurements so far.
pub fn run_all<F: Fn(&str) -> Outcome>(run: F) -> (r: Outcome)
    requires
        forall|p: &str| #[trigger] run.requires((p,)),
        forall|o1: Outcome, o2: Outcome|
            #[trigger] run.ensures(("MemchrIterMatchesNaive",), o1) && #[trigger] run.ensures(
                ("MemrchrIterMatchesNaive",),
                o2,
            ) ==> o1.1.inputs + o2.1.inputs <= u64::MAX && o1.1.elapsed_us + o2.1.elapsed_us
                <= u128::MAX,
    ensures
        exists|o1: Outcome|
            #[trigger] run.ensures(("MemchrIterMatchesNaive",), o1) && if o1.0 is Err {
                r == o1
            } else {
                exists|o2: Outcome|
                    #[trigger] run.ensures(("MemrchrIterMatchesNaive",), o2) && r == (
                        o2.0,
                        combined(o1.1, o2.1),
                    ) && r.1.inputs == o1.1.inputs + o2.1.inputs && r.1.elapsed_us
                        == o1.1.elapsed_us + o2.1.elapsed_us
            },
{
    let total = Metrics::default();
    let (r1, m1) = run("MemchrIterMatchesNaive");
    let total = total.combine(m1);
    assert(total == m1);
    if r1.is_err() {
        return (r1, total);
    }
    let ghost o1 = (r1, m1);
    let (r2, m2) = run("MemrchrIterMatchesNaive");
    let total = total.combine(m2);
    if r2.is_err() {
        return (r2, total);
    }
    (r2, total)
}

/// The case budget that the text of a setting gives: the number it holds,
/// or no limit (`u64::MAX`) when it is missing or holds no number.
pub open spec fn budget_of(setting: Option<Seq<char>>) -> u64 {
    match setting {
        Some(t) => match parsed_u64(t) {
            Some(n) => n,
            None => u64::MAX,
        },
        None => u64::MAX,
    }
}

/// The case budget that the text of a setting gives: the unsigned decimal
/// number it holds, or `u64::MAX` when it is missing or holds no number.
pub fn cases_budget_from(setting: Option<&str>) -> (r: u64)
    ensures
        r == budget_of(opt_view(setting)),
{
    match setting {
        Some(t) => match parse_u64(t) {
            Some(n) => n,
            None => u64::MAX,
        },
        None => u64::MAX,
    }
}

/// The number of cases for a runner that counts them in 32 bits: the budget,
/// capped at `u32::MAX`.
pub fn cases_u32(budget: u64) -> (r: u32)
    ensures
        r == (if budget <= u32::MAX {
            budget
        } else {
            u32::MAX as u64
        }),
{
    if budget <= u32::MAX as u64 {
        budget as u32
    } else {
        u32::MAX
    }
}

/// The most tests a runner may try, discards included: twice the budget,
/// saturating at `u64::MAX`.
pub fn max_tests(budget: u64) -> (r: u64)
    ensures
        r == (if budget * 2 <= u64::MAX {
            budget * 2
        } else {
            u64::MAX as int
        }),
{
    match budget.checked_mul(2) {
        Some(t) => t,
        None => u64::MAX,
    }
}

/// The property-based testing tools that a run can use.
pub enum Tool {
    /// Replays the canonical witness inputs.
    Etna,
    /// `proptest`.
    Proptest,
    /// `quickcheck`.
    Quickcheck,
    /// `crabcheck`.
    Crabcheck,
    /// `hegel`.
    Hegel,
}

/// The tool that a name selects.
pub open spec fn tool_named(name: Seq<char>) -> Option<Tool> {
    if name == "etna"@ {
        Some(Tool::Etna)
    } else if name == "proptest"@ {
        Some(Tool::Proptest)
    } else if name == "quickcheck"@ {
        Some(Tool::Quickcheck)
    } else if name == "crabcheck"@ {
        Some(Tool::Crabcheck)
    } else if name == "hegel"@ {
        Some(Tool::Hegel)
    } else {
        None
    }
}

/// The tool that `name` selects, if any.
pub fn tool_from_name(name: &str) -> (r: Option<Tool>)
    ensures
        r == tool_named(name@),
{
    if str_eq(name, "etna") {
        Some(Tool::Etna)
    } else if str_eq(name, "proptest") {
        Some(Tool::Proptest)
    } else if str_eq(name, "quickcheck") {
        Some(Tool::Quickcheck)
    } else if str_eq(name, "crabcheck") {
        Some(Tool::Crabcheck)
    } else if str_eq(name, "hegel") {
        Some(Tool::Hegel)
    } else {
        None
    }
}

/// The properties that a run can check: one of them, or all in turn.
pub enum PropertyChoice {
    /// `MemchrIterMatchesNaive`.
    MemchrIterMatchesNaive,
    /// `MemrchrIterMatchesNaive`.
    MemrchrIterMatchesNaive,
    /// Every property, in turn.
    All,
}

/// The property choice that a name selects.
pub open spec fn property_named(name: Seq<char>) -> Option<PropertyChoice> {
    if name == "All"@ {
        Some(PropertyChoice::All)
    } else if name == "MemchrIterMatchesNaive"@ {
        Some(PropertyChoice::MemchrIterMatchesNaive)
    } else if name == "MemrchrIterMatchesNaive"@ {
        Some(PropertyChoice::MemrchrIterMatchesNaive)
    } else {
        None
    }
}

/// The property choice that `name` selects, if any.
pub fn property_from_name(name: &str) -> (r: Option<PropertyChoice>)
    ensures
        r == property_named(name@),
{
    if str_eq(name, "All") {
        Some(PropertyChoice::All)
    } else if str_eq(name, "MemchrIterMatchesNaive") {
        Some(PropertyChoice::MemchrIterMatchesNaive)
    } else if str_eq(name, "MemrchrIterMatchesNaive") {
        Some(PropertyChoice::MemrchrIterMatchesNaive)
    } else {
        None
    }
}

/// The canonical witness check of one property: it passes.
pub fn etna_check(choice: PropertyChoice) -> (r: Option<Result<(), String>>)
    ensures
        match choice {
            PropertyChoice::All => r is None,
            _ => r matches Some(res) && res is Ok,
        },
{
    match choice {
        PropertyChoice::MemchrIterMatchesNaive => Some(check_memchr_iter_matches_naive()),
        PropertyChoice::MemrchrIterMatchesNaive => Some(check_memrchr_iter_matches_naive()),
        PropertyChoice::All => None,
    }
}

/// The message for a property name that `tool` does not know.
pub fn unknown_property_message(tool: &str, property: &str) -> (m: String)
    ensures
        m@ == "Unknown property for "@ + tool@ + ": "@ + property@,
{
    let mut m = String::from_str("Unknown property for ");
    m.append(tool);
    m.append(": ");
    m.append(property);
    m
}

/// The message for a tool name that no tool answers to.
pub fn unknown_tool_message(tool: &str) -> (m: String)
    ensures
        m@ == "Unknown tool: "@ + tool@,
{
    let mut m = String::from_str("Unknown tool: ");
    m.append(tool);
    m
}

/// The bytes that random needles are drawn from.
pub open spec fn needle_pool_spec() -> Seq<u8> {
    seq![0x61u8, 0x62u8, 0x63u8, 0x7au8, 0x00u8, 0x01u8, 0x7fu8, 0xffu8]
}

/// The bytes that random haystacks are drawn from; `a` is three times as
/// likely as any other.
pub open spec fn haystack_pool_spec() -> Seq<u8> {
    seq![
        0x61u8, 0x61u8, 0x61u8, 0x62u8, 0x63u8, 0x7au8, 0x00u8, 0x01u8, 0x7fu8, 0xffu8, 0x5fu8,
        0x2eu8, 0x20u8
    ]
}

/// The greatest length of a random haystack.
pub const MAX_HAYSTACK_LEN: usize = 128;

/// The bytes that random needles are drawn from: `a`, `b`, `c`, `z`, 0x00,
/// 0x01, 0x7f and 0xff.
pub fn needle_pool() -> (v: Vec<u8>)
    ensures
        v@ == needle_pool_spec(),
{
    let v = vec![0x61u8, 0x62u8, 0x63u8, 0x7au8, 0x00u8, 0x01u8, 0x7fu8, 0xffu8];
    assert(v@ =~= needle_pool_spec());
    v
}

/// The bytes that random haystacks are drawn from: `a` three times, then
/// `b`, `c`, `z`, 0x00, 0x01, 0x7f, 0xff, `_`, `.` and space.
pub fn haystack_pool() -> (v: Vec<u8>)
    ensures
        v@ == haystack_pool_spec(),
{
    let v = vec![
        0x61u8, 0x61u8, 0x61u8, 0x62u8, 0x63u8, 0x7au8, 0x00u8, 0x01u8, 0x7fu8, 0xffu8, 0x5fu8,
        0x2eu8, 0x20u8,
    ];
    assert(v@ =~= haystack_pool_spec());
    v
}

/// A haystack changed at one point: an empty one becomes the single byte
/// `byte`; any other has the byte at `at` replaced by `byte`.
pub fn mutated_haystack(haystack: Vec<u8>, at: usize, byte: u8) -> (r: Vec<u8>)
    requires
        haystack@.len() == 0 || at < haystack@.len(),
    ensures
        r@ == (if haystack@.len() == 0 {
            seq![byte]
        } else {
            haystack@.update(at as int, byte)
        }),
{
    if haystack.len() == 0 {
        let r = vec![byte];
        assert(r@ =~= seq![byte]);
        return r;
    }
    let mut v = haystack;
    v.set(at, byte);
    v
}

/// How a `quickcheck` run ended, as plain values.
pub enum QuickcheckEnd {
    /// Every test passed.
    Finished,
    /// A test failed on these arguments, each in its text form.
    Failed(Vec<String>),
    /// The run stopped on an error, in its text form.
    Aborted(String),
    /// The run ran out of time.
    TimedOut,
    /// Too many inputs were discarded, after this many passing tests.
    GaveUp(u64),
}

/// How a `crabcheck` run ended, as plain values.
pub enum CrabcheckEnd {
    /// Every test passed.
    Passed,
    /// A test failed on this input, in its text form.
    Failed(String),
    /// The run ran out of time.
    TimedOut,
    /// Too many inputs were discarded.
    GaveUp {
        /// Passing tests.
        passed: u64,
        /// Discarded inputs.
        discarded: u64,
    },
    /// The generator stopped on an error, in its text form.
    Aborted(String),
}

/// The texts of `words` separated by single spaces.
pub open spec fn spaced(words: Seq<String>) -> Seq<char>
    decreases words.len(),
{
    if words.len() == 0 {
        Seq::empty()
    } else if words.len() == 1 {
        words[0]@
    } else {
        spaced(words.drop_last()) + " "@ + words.last()@
    }
}

/// What a `quickcheck` run that ended so reports.
pub open spec fn quickcheck_verdict_text(end: QuickcheckEnd) -> Result<(), Seq<char>> {
    match end {
        QuickcheckEnd::Finished => Ok(()),
        QuickcheckEnd::Failed(args) => Err("("@ + spaced(args@) + ")"@),
        QuickcheckEnd::Aborted(err) => Err("quickcheck aborted: "@ + err@),
        QuickcheckEnd::TimedOut => Err("quickcheck timed out"@),
        QuickcheckEnd::GaveUp(n) => Err("quickcheck gave up after "@ + decimal_digits(n as nat)
            + " tests"@),
    }
}

/// The text of an error result, and nothing of a success.
pub open spec fn result_text(r: Result<(), String>) -> Result<(), Seq<char>> {
    match r {
        Ok(()) => Ok(()),
        Err(m) => Err(m@),
    }
}

/// What a `quickcheck` run that ended so reports: success when it
/// finished, else a message that says how it ended.
pub fn quickcheck_verdict(end: QuickcheckEnd) -> (r: Result<(), String>)
    ensures
        result_text(r) == quickcheck_verdict_text(end),
{
    match end {
        QuickcheckEnd::Finished => Ok(()),
        QuickcheckEnd::Failed(args) => {
            let mut m = String::from_str("(");
            let n = args.len();
            let mut i: usize = 0;
            while i < n
                invariant
                    n == args@.len(),
                    i <= n,
                    m@ == "("@ + spaced(args@.take(i as int)),
                decreases n - i,
            {
                proof {
                    assert(args@.take(i + 1).drop_last() =~= args@.take(i as int));
                    assert(args@.take(i + 1).last() == args@[i as int]);
                }
                if i > 0 {
                    m.append(" ");
                }
                m.append(args[i].as_str());
                proof {
                    if i == 0 {
                        assert(args@.take(1)[0] == args@[0]);
                        assert(m@ =~= "("@ + spaced(args@.take(i + 1)));
                    } else {
                        assert(m@ =~= "("@ + spaced(args@.take(i + 1)));
                    }
                }
                i = i + 1;
            }
            m.append(")");
            assert(args@.take(n as int) =~= args@);
            Err(m)
        },
        QuickcheckEnd::Aborted(err) => {
            let mut m = String::from_str("quickcheck aborted: ");
            m.append(err.as_str());
            Err(m)
        },
        QuickcheckEnd::TimedOut => Err(String::from_str("quickcheck timed out")),
        QuickcheckEnd::GaveUp(passed) => {
            let mut m = String::from_str("quickcheck gave up after ");
            push_decimal(&mut m, passed as u128);
            m.append(" tests");
            Err(m)
        },
    }
}

/// What a `crabcheck` run that ended so reports.
pub open spec fn crabcheck_verdict_text(end: CrabcheckEnd) -> Result<(), Seq<char>> {
    match end {
        CrabcheckEnd::Passed => Ok(()),
        CrabcheckEnd::Failed(input) => Err("("@ + input@ + ")"@),
        CrabcheckEnd::TimedOut => Err("crabcheck timed out"@),
        CrabcheckEnd::GaveUp { passed, discarded } => Err("crabcheck gave up: passed="@
            + decimal_digits(passed as nat) + ", discarded="@ + decimal_digits(discarded as nat)),
        CrabcheckEnd::Aborted(err) => Err("crabcheck aborted: "@ + err@),
    }
}

/// What a `crabcheck` run that ended so reports: success when it passed,
/// else a message that says how it ended.
pub fn crabcheck_verdict(end: CrabcheckEnd) -> (r: Result<(), String>)
    ensures
        result_text(r) == crabcheck_verdict_text(end),
{
    match end {
        CrabcheckEnd::Passed => Ok(()),
        CrabcheckEnd::Failed(input) => {
            let mut m = String::from_str("(");
            m.append(input.as_str());
            m.append(")");
            Err(m)
        },
        CrabcheckEnd::TimedOut => Err(String::from_str("crabcheck timed out")),
        CrabcheckEnd::GaveUp { passed, discarded } => {
            let mut m = String::from_str("crabcheck gave up: passed=");
            push_decimal(&mut m, passed as u128);
            m.append(", discarded=");
            push_decimal(&mut m, discarded as u128);
            Err(m)
        },
        CrabcheckEnd::Aborted(err) => {
            let mut m = String::from_str("crabcheck aborted: ");
            m.append(err.as_str());
            Err(m)
        },
    }
}

/// `s` without the prefix `p`, or all of `s` when it does not start with
/// `p`.
pub open spec fn without_prefix(s: Seq<char>, p: Seq<char>) -> Seq<char> {
    if p.len() <= s.len() && s.subrange(0, p.len() as int) == p {
        s.subrange(p.len() as int, s.len() as int)
    } else {
        s
    }
}

/// A failure message of the `hegel` engine without its leading
/// `Property test failed: `.
pub fn strip_failure_prefix(message: &str) -> (r: String)
    ensures
        r@ == without_prefix(message@, "Property test failed: "@),
{
    let prefix = "Property test failed: ";
    let p = prefix.unicode_len();
    let n = message.unicode_len();
    if p <= n && str_eq(message.substring_char(0, p), prefix) {
        String::from_str(message.substring_char(p, n))
    } else {
        String::from_str(message)
    }
}

} // verus!
