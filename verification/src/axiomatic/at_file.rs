//! Files that list tests and further files of that kind.

use crate::text::{self, decimal_text, same_text, starts_with};
use vstd::prelude::*;

verus! {

#[derive(Debug)]
pub enum AtLineError {
    NoParse(usize, String),
}

impl AtLineError {
    /// The error in words.
    pub fn text(&self) -> (r: String)
        ensures
            r@ == match *self {
                AtLineError::NoParse(lineno, line) => "Could not parse line "@ + text::decimal(
                    lineno as nat,
                ) + ": "@ + line@,
            },
    {
        match self {
            AtLineError::NoParse(lineno, line) => "Could not parse line ".to_owned().concat(
                decimal_text(*lineno as u128).as_str(),
            ).concat(": ").concat(line.as_str()),
        }
    }
}

/// What a line stands for.
#[derive(Clone, Copy, Debug, PartialEq, Eq, Structural)]
pub enum AtLine {
    /// Another file of this kind.
    AtFile,
    /// A test.
    Test,
    Nothing,
}

/// A line, with the parts of the path that it makes together with the
/// directory of the file.
pub struct PathLine {
    pub line: String,
    pub file_name: Option<String>,
    pub extension: Option<String>,
}

/// Whether a path is that of a test.
pub open spec fn is_test(extension: Option<String>) -> bool {
    extension matches Some(s) && (s@ == "litmus"@ || s@ == "toml"@)
}

pub fn has_test_extension(extension: &Option<String>) -> (r: bool)
    ensures
        r == is_test(*extension),
{
    match extension {
        Some(s) => same_text(s.as_str(), "litmus") || same_text(s.as_str(), "toml"),
        None => false,
    }
}

/// What a line stands for, if anything. A name that begins with `@` is that
/// of another file of this kind.
pub open spec fn at_line(p: PathLine) -> Option<AtLine> {
    match (p.extension, p.file_name) {
        (Some(_), Some(name)) => if text::begins_with(name@, "@"@) {
            Some(AtLine::AtFile)
        } else if is_test(p.extension) {
            Some(AtLine::Test)
        } else if p.line@.len() == 0 {
            Some(AtLine::Nothing)
        } else {
            None
        },
        _ => None,
    }
}

pub fn process_at_line(p: &PathLine) -> (r: Option<AtLine>)
    ensures
        r == at_line(*p),
{
    match (&p.extension, &p.file_name) {
        (Some(_), Some(name)) => {
            if starts_with(name.as_str(), "@") {
                Some(AtLine::AtFile)
            } else if has_test_extension(&p.extension) {
                Some(AtLine::Test)
            } else if p.line.as_str().is_empty() {
                Some(AtLine::Nothing)
            } else {
                None
            }
        },
        _ => None,
    }
}

/// Whether a line is left out: because it is a comment, or empty.
pub open spec fn is_skipped(line: Seq<char>) -> bool {
    text::begins_with(line, "#"@) || line.len() == 0
}

/// What is to be done for the lines of a file, in order, and the error if a
/// line stands for nothing.
pub struct AtPlan {
    /// The numbers of the lines that name a file or a test.
    pub steps: Vec<(usize, AtLine)>,
    pub end: Result<(), AtLineError>,
}

pub struct AtPlanView {
    pub steps: Seq<(usize, AtLine)>,
    /// The line that stands for nothing.
    pub bad: Option<(usize, Seq<char>)>,
}

impl View for AtPlan {
    type V = AtPlanView;

    open spec fn view(&self) -> AtPlanView {
        AtPlanView {
            steps: self.steps@,
            bad: match self.end {
                Ok(_) => None,
                Err(AtLineError::NoParse(i, line)) => Some((i, line@)),
            },
        }
    }
}

/// What is to be done for the lines from position `i` on.
pub open spec fn at_plan(lines: Seq<PathLine>, i: int, steps: Seq<(usize, AtLine)>) -> AtPlanView
    decreases lines.len() - i,
{
    if 0 <= i < lines.len() {
        if is_skipped(lines[i].line@) {
            at_plan(lines, i + 1, steps)
        } else {
            match at_line(lines[i]) {
                Some(step) => at_plan(lines, i + 1, steps.push((i as usize, step))),
                None => AtPlanView { steps, bad: Some((i as usize, lines[i].line@)) },
            }
        }
    } else {
        AtPlanView { steps, bad: None }
    }
}

/// Works out what is to be done for the lines of a file.
pub fn process_at_file(lines: &Vec<PathLine>) -> (r: AtPlan)
    ensures
        r@ == at_plan(lines@, 0, seq![]),
{
    let mut steps: Vec<(usize, AtLine)> = Vec::new();
    assert(steps@ =~= seq![]);
    let ghost whole = at_plan(lines@, 0, seq![]);
    let mut i: usize = 0;
    while i < lines.len()
        invariant
            i <= lines@.len(),
            whole == at_plan(lines@, 0, seq![]),
            whole == at_plan(lines@, i as int, steps@),
        decreases lines@.len() - i,
    {
        let line = lines[i].line.as_str();
        if !starts_with(line, "#") && !line.is_empty() {
            match process_at_line(&lines[i]) {
                Some(step) => {
                    steps.push((i, step));
                },
                None => {
                    return AtPlan { steps, end: Err(AtLineError::NoParse(i, line.to_owned())) };
                },
            }
        }
        i = i + 1;
    }
    AtPlan { steps, end: Ok(()) }
}

} // verus!
