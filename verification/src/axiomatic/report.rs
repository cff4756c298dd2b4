//! Reporting the results of a test.

use super::result::AxResult;
use crate::text::{self, decimal_text, pad_with_dots, split_lines, starts_with};
use vstd::prelude::*;
use vstd::string::StringSliceAdditionalSpecFns;

verus! {

/// The position of the first result from `i` on that is an error, or that is
/// allowed.
pub open spec fn first_result(results: Seq<AxResult>, error: bool, i: int) -> Option<int>
    decreases results.len() - i,
{
    if 0 <= i < results.len() {
        if (error && results[i] is Error) || (!error && results[i] is Allowed) {
            Some(i)
        } else {
            first_result(results, error, i + 1)
        }
    } else {
        None
    }
}

/// The result that stands for all of them: the first error, else the first
/// that is allowed, else the first.
pub open spec fn overall(results: Seq<AxResult>) -> int {
    match first_result(results, true, 0) {
        Some(i) => i,
        None => match first_result(results, false, 0) {
            Some(i) => i,
            None => 0,
        },
    }
}

/// A test is forbidden overall only if every execution is, allowed overall if
/// one is and none is in error, and in error overall if one is.
pub proof fn law_overall(results: Seq<AxResult>)
    requires
        results.len() > 0,
    ensures
        0 <= overall(results) < results.len(),
        results[overall(results)] is Error <==> exists|i: int|
            0 <= i < results.len() && (#[trigger] results[i]) is Error,
        results[overall(results)] is Allowed <==> (forall|i: int|
            0 <= i < results.len() ==> !((#[trigger] results[i]) is Error)) && exists|i: int|
            0 <= i < results.len() && (#[trigger] results[i]) is Allowed,
        results[overall(results)] is Forbidden <==> forall|i: int|
            0 <= i < results.len() ==> (#[trigger] results[i]) is Forbidden,
{
    lemma_first_result(results, true, 0);
    lemma_first_result(results, false, 0);
}

/// Before the first result that is looked for there is none.
proof fn lemma_first_result(results: Seq<AxResult>, error: bool, i: int)
    requires
        0 <= i <= results.len(),
    ensures
        match first_result(results, error, i) {
            Some(k) => {
                &&& i <= k < results.len()
                &&& if error {
                    results[k] is Error
                } else {
                    results[k] is Allowed
                }
            },
            None => forall|k: int|
                i <= k < results.len() ==> if error {
                    !((#[trigger] results[k]) is Error)
                } else {
                    !(results[k] is Allowed)
                },
        },
    decreases results.len() - i,
{
    if i < results.len() {
        lemma_first_result(results, error, i + 1);
    }
}

fn find_result(results: &Vec<AxResult>, error: bool) -> (r: Option<usize>)
    ensures
        match r {
            Some(i) => first_result(results@, error, 0) == Some(i as int) && i < results@.len(),
            None => first_result(results@, error, 0) is None,
        },
{
    let mut i: usize = 0;
    while i < results.len()
        invariant
            i <= results@.len(),
            first_result(results@, error, 0) == first_result(results@, error, i as int),
        decreases results@.len() - i,
    {
        if (error && results[i].is_error()) || (!error && results[i].is_allowed()) {
            return Some(i);
        }
        i = i + 1;
    }
    None
}

fn overall_result(results: &Vec<AxResult>) -> (r: usize)
    requires
        results@.len() > 0,
    ensures
        r == overall(results@),
        r < results@.len(),
{
    match find_result(results, true) {
        Some(i) => i,
        None => match find_result(results, false) {
            Some(i) => i,
            None => 0,
        },
    }
}

/// How many of the first `n` results are allowed.
pub open spec fn allowed(results: Seq<AxResult>, n: nat) -> nat
    decreases n,
{
    if n == 0 {
        0
    } else {
        allowed(results, (n - 1) as nat) + if results[n - 1] is Allowed {
            1nat
        } else {
            0nat
        }
    }
}

fn count_allowed(results: &Vec<AxResult>) -> (r: usize)
    ensures
        r == allowed(results@, results@.len()),
{
    let mut n: usize = 0;
    let mut i: usize = 0;
    while i < results.len()
        invariant
            i <= results@.len(),
            n <= i,
            n == allowed(results@, i as nat),
        decreases results@.len() - i,
    {
        if results[i].is_allowed() {
            n = n + 1;
        }
        i = i + 1;
    }
    n
}

/// What a test comes to, compared with what is expected.
#[derive(Clone, Copy, Debug, PartialEq, Eq, Structural)]
pub enum Verdict {
    Pass,
    Error,
    Fail,
    /// Nothing is expected.
    Unknown,
}

impl Verdict {
    /// The verdict as it is printed, in color.
    pub open spec fn spec_text(self) -> &'static str {
        match self {
            Verdict::Pass => "\x1b[92m\x1b[1mok\x1b[0m",
            Verdict::Error => "\x1b[95m\x1b[1merror\x1b[0m",
            Verdict::Fail => "\x1b[91m\x1b[1mfail\x1b[0m",
            Verdict::Unknown => "\x1b[93m\x1b[1m?\x1b[0m",
        }
    }

    pub fn text(self) -> (r: &'static str)
        ensures
            r@ == self.spec_text()@,
    {
        match self {
            Verdict::Pass => "\x1b[92m\x1b[1mok\x1b[0m",
            Verdict::Error => "\x1b[95m\x1b[1merror\x1b[0m",
            Verdict::Fail => "\x1b[91m\x1b[1mfail\x1b[0m",
            Verdict::Unknown => "\x1b[93m\x1b[1m?\x1b[0m",
        }
    }
}

/// The verdict on a result.
pub open spec fn verdict(got: AxResult, expected: Option<AxResult>) -> Verdict {
    match expected {
        None => Verdict::Unknown,
        Some(reference) => if got.same_kind(reference) {
            Verdict::Pass
        } else if got is Error {
            Verdict::Error
        } else {
            Verdict::Fail
        },
    }
}

/// What is expected, without the reference to it.
pub open spec fn expectation(expected: Option<&AxResult>) -> Option<AxResult> {
    match expected {
        Some(reference) => Some(*reference),
        None => None,
    }
}

fn judge(got: &AxResult, expected: Option<&AxResult>) -> (r: Verdict)
    ensures
        r == verdict(*got, expectation(expected)),
{
    match expected {
        None => Verdict::Unknown,
        Some(reference) => {
            if got.matches(reference) {
                Verdict::Pass
            } else if got.is_error() {
                Verdict::Error
            } else {
                Verdict::Fail
            }
        },
    }
}

/// The start of the line that is printed for a test.
pub open spec fn summary(
    name: Seq<char>,
    millis: u128,
    results: Seq<AxResult>,
    expected: Option<AxResult>,
) -> Seq<char> {
    let got = results[overall(results)];
    let start = name + " "@ + got.spec_short_name()@ + " ("@ + text::decimal(
        allowed(results, results.len()),
    ) + " of "@ + text::decimal(results.len()) + ") "@;
    let reference = match expected {
        Some(reference) => "reference: "@ + reference.spec_short_name()@ + " "@,
        None => seq![],
    };
    start + reference + text::decimal(millis as nat) + "ms "@
}

fn summarize(name: &str, millis: u128, results: &Vec<AxResult>, expected: Option<&AxResult>) -> (r:
    String)
    requires
        results@.len() > 0,
    ensures
        r@ == summary(name@, millis, results@, expectation(expected)),
{
    let got = &results[overall_result(results)];
    let start = name.to_owned().concat(" ").concat(got.short_name()).concat(" (").concat(
        decimal_text(count_allowed(results) as u128).as_str(),
    ).concat(" of ").concat(decimal_text(results.len() as u128).as_str()).concat(") ");
    let ghost s = start@;
    let with_reference = match expected {
        Some(reference) => {
            let reference = "reference: ".to_owned().concat(reference.short_name()).concat(" ");
            start.concat(reference.as_str())
        },
        None => {
            assert(s + seq![] =~= s);
            start
        },
    };
    with_reference.concat(decimal_text(millis).as_str()).concat("ms ")
}

/// The lines among the given ones that report an error, from position `i` on.
pub open spec fn error_lines(lines: Seq<Seq<char>>, i: int) -> Seq<Seq<char>>
    decreases lines.len() - i,
{
    if 0 <= i < lines.len() {
        if text::begins_with(lines[i], "(error "@) {
            seq![lines[i]] + error_lines(lines, i + 1)
        } else {
            error_lines(lines, i + 1)
        }
    } else {
        seq![]
    }
}

/// The lines of the solver's output that report an error.
pub fn find_error_lines(z3_output: &str) -> (r: Vec<String>)
    ensures
        text::views(r@) == error_lines(text::lines(z3_output@), 0),
{
    let lines = split_lines(z3_output);
    let ghost all = text::lines(z3_output@);
    let mut r: Vec<String> = Vec::new();
    let mut i: usize = 0;
    assert(text::views(r@) + error_lines(all, 0) =~= error_lines(all, 0));
    while i < lines.len()
        invariant
            i <= lines@.len(),
            text::views(lines@) == all,
            text::views(r@) + error_lines(all, i as int) == error_lines(all, 0),
        decreases lines@.len() - i,
    {
        assert(all[i as int] == lines@[i as int]@);
        let ghost before = text::views(r@);
        if starts_with(lines[i].as_str(), "(error ") {
            r.push(lines[i].clone());
            assert(text::views(r@) =~= before.push(all[i as int]));
            assert(before + error_lines(all, i as int) =~= text::views(r@) + error_lines(
                all,
                i + 1,
            ));
        }
        i = i + 1;
    }
    assert(text::views(r@) + error_lines(all, i as int) =~= text::views(r@));
    r
}

/// How much of the solver's output is shown.
pub open spec fn head_len(z3_output: &str) -> usize {
    if z3_output.len() < 15 {
        z3_output.len()
    } else {
        15
    }
}

/// The start of the solver's output.
pub fn head<'a>(z3_output: &'a str) -> (r: &'a str)
    requires
        z3_output.is_char_boundary(head_len(z3_output)),
    ensures
        r.spec_bytes() == z3_output.spec_bytes().subrange(0, head_len(z3_output) as int),
{
    let n = z3_output.len();
    let end = if n < 15 {
        n
    } else {
        15
    };
    z3_output.split_at(end).0
}

/// What is printed for a test, and whether the test counts as a failure.
pub struct Report {
    pub line: String,
    pub failure: bool,
    /// The result whose output is to be shown, if it is an error.
    pub error: Option<usize>,
}

/// Whether a verdict makes a test count as a failure.
pub open spec fn is_failure(v: Verdict) -> bool {
    v == Verdict::Error || v == Verdict::Fail
}

/// Reports the results of a test.
pub fn print_results(
    name: &str,
    millis: u128,
    results: &Vec<AxResult>,
    expected: Option<&AxResult>,
) -> (r: Report)
    ensures
        results@.len() == 0 ==> {
            &&& r.line@ == text::dotted(
                name@ + " no executions "@ + text::decimal(millis as nat),
                100,
            ) + " "@ + Verdict::Error.spec_text()@
            &&& !r.failure
            &&& r.error is None
        },
        results@.len() > 0 ==> {
            let got = results@[overall(results@)];
            let v = verdict(got, expectation(expected));
            &&& r.line@ == text::dotted(
                summary(name@, millis, results@, expectation(expected)),
                100,
            ) + " "@ + v.spec_text()@
            &&& r.failure == (v == Verdict::Error || v == Verdict::Fail)
            &&& r.failure == is_failure(v)
            &&& r.error == if got is Error {
                Some(overall(results@) as usize)
            } else {
                None
            }
        },
{
    if results.len() == 0 {
        let prefix = name.to_owned().concat(" no executions ").concat(
            decimal_text(millis).as_str(),
        );
        let line = pad_with_dots(prefix, 100).concat(" ").concat(Verdict::Error.text());
        return Report { line, failure: false, error: None };
    }
    let i = overall_result(results);
    let v = judge(&results[i], expected);
    let prefix = summarize(name, millis, results, expected);
    let line = pad_with_dots(prefix, 100).concat(" ").concat(v.text());
    let failure = match v {
        Verdict::Error => true,
        Verdict::Fail => true,
        _ => false,
    };
    let error = if results[i].is_error() {
        Some(i)
    } else {
        None
    };
    Report { line, failure, error }
}

/// The exit code of the program.
pub fn exit_code(any_failure: bool) -> (r: i32)
    ensures
        r == if any_failure {
            1i32
        } else {
            0i32
        },
{
    if any_failure {
        1
    } else {
        0
    }
}

} // verus!
