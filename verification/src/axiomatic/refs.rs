//! Reading a file of reference results.
//!
//! For each test the file has a line with the name of the test and what is
//! expected, a line with a number of states, as many lines with states, and a
//! line that says whether the expectation was met.

use super::result::{self, negate_result, AxResult};
use crate::text::{self, nth_word, parse_unsigned, same_text, starts_with, TextMap};
use vstd::prelude::*;

verus! {

#[derive(Debug)]
pub enum RefsError {
    BadTestLine(String),
    BadExpected(String),
    BadStatesLine(String),
    BadResultLine(String),
    UnexpectedEof,
}

pub enum RefsErrorView {
    BadTestLine(Seq<char>),
    BadExpected(Seq<char>),
    BadStatesLine(Seq<char>),
    BadResultLine(Seq<char>),
    UnexpectedEof,
}

impl View for RefsError {
    type V = RefsErrorView;

    open spec fn view(&self) -> RefsErrorView {
        match self {
            RefsError::BadTestLine(s) => RefsErrorView::BadTestLine(s@),
            RefsError::BadExpected(s) => RefsErrorView::BadExpected(s@),
            RefsError::BadStatesLine(s) => RefsErrorView::BadStatesLine(s@),
            RefsError::BadResultLine(s) => RefsErrorView::BadResultLine(s@),
            RefsError::UnexpectedEof => RefsErrorView::UnexpectedEof,
        }
    }
}

impl RefsErrorView {
    pub open spec fn text(self) -> Seq<char> {
        match self {
            RefsErrorView::BadTestLine(s) => "Expected test name on line: "@ + s,
            RefsErrorView::BadExpected(s) => "Expected `Allowed` or `Forbidden` got: "@ + s,
            RefsErrorView::BadStatesLine(s) => "Expected a line containing `States <n>`: "@ + s,
            RefsErrorView::BadResultLine(s) =>
                "Expected a line starting with either `Ok or No`: "@ + s,
            RefsErrorView::UnexpectedEof => "Unexpected end-of-file"@,
        }
    }
}

impl RefsError {
    /// The error in words.
    pub fn text(&self) -> (r: String)
        ensures
            r@ == self@.text(),
    {
        match self {
            RefsError::BadTestLine(s) => "Expected test name on line: ".to_owned().concat(
                s.as_str(),
            ),
            RefsError::BadExpected(s) => "Expected `Allowed` or `Forbidden` got: ".to_owned().concat(
                s.as_str(),
            ),
            RefsError::BadStatesLine(s) =>
                "Expected a line containing `States <n>`: ".to_owned().concat(s.as_str()),
            RefsError::BadResultLine(s) =>
                "Expected a line starting with either `Ok or No`: ".to_owned().concat(s.as_str()),
            RefsError::UnexpectedEof => "Unexpected end-of-file".to_owned(),
        }
    }
}

/// Why a file of reference results cannot be used.
#[derive(Debug)]
pub enum RefsFailure {
    /// A line could not be read, with the reason.
    Unreadable(String),
    Refs(RefsError),
    /// The number of states is not a number.
    BadNumber(String),
}

pub enum RefsFailureView {
    Unreadable(Seq<char>),
    Refs(RefsErrorView),
    BadNumber(Seq<char>),
}

impl View for RefsFailure {
    type V = RefsFailureView;

    open spec fn view(&self) -> RefsFailureView {
        match self {
            RefsFailure::Unreadable(s) => RefsFailureView::Unreadable(s@),
            RefsFailure::Refs(e) => RefsFailureView::Refs(e@),
            RefsFailure::BadNumber(s) => RefsFailureView::BadNumber(s@),
        }
    }
}

/// A line, or the reason why it could not be read.
pub type Line = Result<String, String>;

/// The line at a position.
pub open spec fn line_at(lines: Seq<Line>, i: int) -> Result<Seq<char>, RefsFailureView> {
    if 0 <= i < lines.len() {
        match lines[i] {
            Ok(s) => Ok(s@),
            Err(e) => Err(RefsFailureView::Unreadable(e@)),
        }
    } else {
        Err(RefsFailureView::Refs(RefsErrorView::UnexpectedEof))
    }
}

fn get_line(lines: &Vec<Line>, i: usize) -> (r: Result<&str, RefsFailure>)
    ensures
        match r {
            Ok(s) => line_at(lines@, i as int) == Ok::<Seq<char>, RefsFailureView>(s@),
            Err(e) => line_at(lines@, i as int) == Err::<Seq<char>, RefsFailureView>(e@),
        },
{
    if i < lines.len() {
        match &lines[i] {
            Ok(s) => Ok(s.as_str()),
            Err(e) => Err(RefsFailure::Unreadable(e.clone())),
        }
    } else {
        Err(RefsFailure::Refs(RefsError::UnexpectedEof))
    }
}

/// The number of states that a line gives.
pub open spec fn states(line: Result<Seq<char>, RefsFailureView>) -> Result<
    usize,
    RefsFailureView,
> {
    match line {
        Err(e) => Err(e),
        Ok(line) => if text::begins_with(line, "States"@) {
            match text::word(line, 1) {
                None => Err(RefsFailureView::Refs(RefsErrorView::BadStatesLine(line))),
                Some(w) => match text::unsigned(w) {
                    Some(n) => Ok(n),
                    None => Err(RefsFailureView::BadNumber(w)),
                },
            }
        } else {
            Err(RefsFailureView::Refs(RefsErrorView::BadStatesLine(line)))
        },
    }
}

pub fn parse_states_line(lines: &Vec<Line>, i: usize) -> (r: Result<usize, RefsFailure>)
    ensures
        match r {
            Ok(n) => states(line_at(lines@, i as int)) == Ok::<usize, RefsFailureView>(n),
            Err(e) => states(line_at(lines@, i as int)) == Err::<usize, RefsFailureView>(e@),
        },
{
    let line = match get_line(lines, i) {
        Err(e) => {
            return Err(e);
        },
        Ok(line) => line,
    };
    if starts_with(line, "States") {
        match nth_word(line, 1) {
            None => Err(RefsFailure::Refs(RefsError::BadStatesLine(line.to_owned()))),
            Some(w) => match parse_unsigned(w) {
                Some(n) => Ok(n),
                None => Err(RefsFailure::BadNumber(w.to_owned())),
            },
        }
    } else {
        Err(RefsFailure::Refs(RefsError::BadStatesLine(line.to_owned())))
    }
}

/// The result that a line gives, where `expected` was expected.
pub open spec fn outcome(line: Result<Seq<char>, RefsFailureView>, expected: AxResult) -> Result<
    AxResult,
    RefsFailureView,
> {
    match line {
        Err(e) => Err(e),
        Ok(line) => if text::begins_with(line, "Ok"@) {
            Ok(expected)
        } else if text::begins_with(line, "No"@) {
            Ok(result::negated(expected))
        } else {
            Err(RefsFailureView::Refs(RefsErrorView::BadResultLine(line)))
        },
    }
}

pub fn parse_result_line(lines: &Vec<Line>, i: usize, expected: AxResult) -> (r: Result<
    AxResult,
    RefsFailure,
>)
    requires
        !(expected is Error),
    ensures
        match r {
            Ok(result) => outcome(line_at(lines@, i as int), expected) == Ok::<
                AxResult,
                RefsFailureView,
            >(result),
            Err(e) => outcome(line_at(lines@, i as int), expected) == Err::<
                AxResult,
                RefsFailureView,
            >(e@),
        },
{
    let line = match get_line(lines, i) {
        Err(e) => {
            return Err(e);
        },
        Ok(line) => line,
    };
    if starts_with(line, "Ok") {
        Ok(expected)
    } else if starts_with(line, "No") {
        Ok(negate_result(expected))
    } else {
        Err(RefsFailure::Refs(RefsError::BadResultLine(line.to_owned())))
    }
}

/// What is expected. `Required` is for tests whose assertion has to hold of
/// all traces; such a test is turned round beforehand, so that what must not
/// happen is to be forbidden.
pub open spec fn expectation(s: Seq<char>) -> Option<AxResult> {
    if s == "Allowed"@ {
        Some(AxResult::Allowed(None))
    } else if s == "Forbidden"@ || s == "Required"@ {
        Some(AxResult::Forbidden(None))
    } else {
        None
    }
}

pub fn parse_expected(expected: &str) -> (r: Result<AxResult, RefsError>)
    ensures
        match r {
            Ok(result) => expectation(expected@) == Some(result),
            Err(e) => expectation(expected@) is None && e@ == RefsErrorView::BadExpected(expected@),
        },
{
    if same_text(expected, "Allowed") {
        Ok(AxResult::Allowed(None))
    } else if same_text(expected, "Forbidden") || same_text(expected, "Required") {
        Ok(AxResult::Forbidden(None))
    } else {
        Err(RefsError::BadExpected(expected.to_owned()))
    }
}

/// The name of the test and what is expected of it.
pub open spec fn test_header(line: Seq<char>) -> Result<(Seq<char>, AxResult), RefsFailureView> {
    match (text::word(line, 1), text::word(line, 2)) {
        (Some(test), Some(expected)) => match expectation(expected) {
            Some(result) => Ok((test, result)),
            None => Err(RefsFailureView::Refs(RefsErrorView::BadExpected(expected))),
        },
        _ => Err(RefsFailureView::Refs(RefsErrorView::BadTestLine(line))),
    }
}

fn parse_test_header(line: &str) -> (r: Result<(String, AxResult), RefsFailure>)
    ensures
        match r {
            Ok((test, expected)) => {
                &&& test_header(line@) == Ok::<(Seq<char>, AxResult), RefsFailureView>(
                    (test@, expected),
                )
                &&& !(expected is Error)
            },
            Err(e) => test_header(line@) == Err::<(Seq<char>, AxResult), RefsFailureView>(e@),
        },
{
    match (nth_word(line, 1), nth_word(line, 2)) {
        (Some(test), Some(expected)) => match parse_expected(expected) {
            Ok(result) => Ok((test.to_owned(), result)),
            Err(e) => Err(RefsFailure::Refs(e)),
        },
        _ => Err(RefsFailure::Refs(RefsError::BadTestLine(line.to_owned()))),
    }
}

/// The reference results of the lines from position `i` on, on top of `m`.
pub open spec fn references(lines: Seq<Line>, i: int, m: Map<Seq<char>, AxResult>) -> Result<
    Map<Seq<char>, AxResult>,
    RefsFailureView,
>
    decreases lines.len() - i,
{
    if 0 <= i < lines.len() {
        match line_at(lines, i) {
            Err(e) => Err(e),
            Ok(line) => if text::begins_with(line, "Test"@) {
                match test_header(line) {
                    Err(e) => Err(e),
                    Ok((test, expected)) => match states(line_at(lines, i + 1)) {
                        Err(e) => Err(e),
                        Ok(n) => match outcome(line_at(lines, i + 2 + n), expected) {
                            Err(e) => Err(e),
                            Ok(result) => references(lines, i + 3 + n, m.insert(test, result)),
                        },
                    },
                }
            } else {
                references(lines, i + 1, m)
            },
        }
    } else {
        Ok(m)
    }
}

/// Reads reference results.
pub fn process_refs(lines: &Vec<Line>) -> (r: Result<TextMap<AxResult>, RefsFailure>)
    ensures
        match r {
            Ok(m) => references(lines@, 0, Map::empty()) == Ok::<
                Map<Seq<char>, AxResult>,
                RefsFailureView,
            >(m@),
            Err(e) => references(lines@, 0, Map::empty()) == Err::<
                Map<Seq<char>, AxResult>,
                RefsFailureView,
            >(e@),
        },
{
    let mut refs: TextMap<AxResult> = TextMap::new();
    let ghost whole = references(lines@, 0, Map::empty());
    let n = lines.len();
    let mut i: usize = 0;
    while i < n
        invariant
            i <= n,
            n == lines@.len(),
            whole == references(lines@, 0, Map::empty()),
            whole == references(lines@, i as int, refs@),
        decreases n - i,
    {
        let line = match get_line(lines, i) {
            Err(e) => {
                return Err(e);
            },
            Ok(line) => line,
        };
        if starts_with(line, "Test") {
            let (test, expected) = match parse_test_header(line) {
                Err(e) => {
                    return Err(e);
                },
                Ok((test, expected)) => (test, expected),
            };
            let num_states = match parse_states_line(lines, i + 1) {
                Err(e) => {
                    return Err(e);
                },
                Ok(k) => k,
            };
            if n - i <= 2 || num_states > n - i - 3 {
                assert(line_at(lines@, i + 2 + num_states) is Err);
                return Err(RefsFailure::Refs(RefsError::UnexpectedEof));
            }
            match parse_result_line(lines, i + 2 + num_states, expected) {
                Err(e) => {
                    return Err(e);
                },
                Ok(result) => {
                    refs.insert(test, result);
                },
            }
            i = i + 3 + num_states;
        } else {
            i = i + 1;
        }
    }
    Ok(refs)
}

} // verus!
