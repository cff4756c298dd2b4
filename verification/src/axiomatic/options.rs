//! The meaning of command line options, and names that are made from them.

use crate::text::{self, decimal_text, same_text, split_on};
use vstd::prelude::*;

verus! {

/// Which translations of no interest are removed.
pub open spec fn removal(mode: Option<Seq<char>>) -> Option<Option<bool>> {
    match mode {
        None => Some(None),
        Some(mode) => if mode == "all"@ {
            Some(Some(false))
        } else if mode == "safe"@ {
            Some(Some(true))
        } else {
            None
        },
    }
}

/// The text of an option that may be given.
pub open spec fn given(option: &Option<String>) -> Option<Seq<char>> {
    match option {
        Some(s) => Some(s@),
        None => None,
    }
}

/// The message for a value that the option does not take.
pub open spec fn removal_message(mode: Seq<char>) -> Seq<char> {
    "Invalid option for --remove-uninteresting flag: "@ + mode
        + ". Must be either 'all' or 'safe'"@
}

/// Reads the option on translations of no interest: `all` are removed, or
/// only those where that is `safe`.
pub fn parse_remove_uninteresting(mode: &Option<String>) -> (r: Result<Option<bool>, String>)
    ensures
        match r {
            Ok(m) => removal(given(mode)) == Some(m),
            Err(e) => {
                &&& removal(given(mode)) is None
                &&& e@ == removal_message(given(mode)->0)
            },
        },
{
    match mode {
        None => Ok(None),
        Some(mode) => {
            if same_text(mode.as_str(), "all") {
                Ok(Some(false))
            } else if same_text(mode.as_str(), "safe") {
                Ok(Some(true))
            } else {
                Err(
                    "Invalid option for --remove-uninteresting flag: ".to_owned().concat(
                        mode.as_str(),
                    ).concat(". Must be either 'all' or 'safe'"),
                )
            }
        },
    }
}

/// What is done with a path that reaches an instruction too often.
#[derive(Clone, Copy, Debug, PartialEq, Eq, Structural)]
pub enum PCLimitMode {
    Error,
    Discard,
}

pub open spec fn limit_mode(mode: Option<Seq<char>>) -> Option<PCLimitMode> {
    match mode {
        None => Some(PCLimitMode::Error),
        Some(mode) => if mode == "error"@ {
            Some(PCLimitMode::Error)
        } else if mode == "discard"@ {
            Some(PCLimitMode::Discard)
        } else {
            None
        },
    }
}

/// Reads the option on paths that reach an instruction too often; `None` if
/// its value is not one that it takes.
pub fn parse_pc_limit_mode(mode: &Option<String>) -> (r: Option<PCLimitMode>)
    ensures
        r == limit_mode(given(mode)),
{
    match mode {
        None => Some(PCLimitMode::Error),
        Some(mode) => {
            if same_text(mode.as_str(), "error") {
                Some(PCLimitMode::Error)
            } else if same_text(mode.as_str(), "discard") {
                Some(PCLimitMode::Discard)
            } else {
                None
            }
        },
    }
}

/// How graphs are drawn.
#[derive(Clone, Copy, Debug, PartialEq, Eq, Structural)]
pub enum GraphMode {
    Disabled,
    Dot,
    ASCII,
}

pub open spec fn drawing(mode: Option<Seq<char>>) -> Option<GraphMode> {
    match mode {
        None => Some(GraphMode::Disabled),
        Some(mode) => if mode == "ascii"@ {
            Some(GraphMode::ASCII)
        } else if mode == "dot"@ {
            Some(GraphMode::Dot)
        } else if mode == "none"@ {
            Some(GraphMode::Disabled)
        } else {
            None
        },
    }
}

/// Reads the option on how graphs are drawn; `None` if its value is not one
/// that it takes.
pub fn parse_graph_mode(mode: &Option<String>) -> (r: Option<GraphMode>)
    ensures
        r == drawing(given(mode)),
{
    match mode {
        None => Some(GraphMode::Disabled),
        Some(mode) => {
            if same_text(mode.as_str(), "ascii") {
                Some(GraphMode::ASCII)
            } else if same_text(mode.as_str(), "dot") {
                Some(GraphMode::Dot)
            } else if same_text(mode.as_str(), "none") {
                Some(GraphMode::Disabled)
            } else {
                None
            }
        },
    }
}

/// Reads a list of names with commas between them.
pub fn split_list(list: &str) -> (r: Vec<String>)
    ensures
        text::views(r@) == text::pieces(list@, ','),
{
    split_on(list, ',')
}

/// The two sides of an equation, if there is exactly one equals sign.
pub open spec fn sides(equation: Seq<char>) -> Option<(Seq<char>, Seq<char>)> {
    let parts = text::pieces(equation, '=');
    if parts.len() == 2 {
        Some((parts[0], parts[1]))
    } else {
        None
    }
}

/// The sides of equations from position `i` on, behind those before; `None`
/// if one of them is not an equation.
pub open spec fn all_sides(
    equations: Seq<Seq<char>>,
    i: int,
    done: Seq<(Seq<char>, Seq<char>)>,
) -> Option<Seq<(Seq<char>, Seq<char>)>>
    decreases equations.len() - i,
{
    if 0 <= i < equations.len() {
        match sides(equations[i]) {
            Some(sides) => all_sides(equations, i + 1, done.push(sides)),
            None => None,
        }
    } else {
        Some(done)
    }
}

/// The texts of pairs of strings.
pub open spec fn pair_views(pairs: Seq<(String, String)>) -> Seq<(Seq<char>, Seq<char>)> {
    Seq::new(pairs.len(), |i: int| (pairs[i].0@, pairs[i].1@))
}

/// Reads the option on padding: equations of a name and a value, with commas
/// between them. `None` if it is not of that form.
pub fn parse_padding(padding: &str) -> (r: Option<Vec<(String, String)>>)
    ensures
        match r {
            Some(pairs) => all_sides(text::pieces(padding@, ','), 0, seq![]) == Some(
                pair_views(pairs@),
            ),
            None => all_sides(text::pieces(padding@, ','), 0, seq![]) is None,
        },
{
    let equations = split_on(padding, ',');
    let ghost all = text::pieces(padding@, ',');
    let mut r: Vec<(String, String)> = Vec::new();
    let mut i: usize = 0;
    assert(pair_views(r@) =~= seq![]);
    while i < equations.len()
        invariant
            i <= equations@.len(),
            text::views(equations@) == all,
            all_sides(all, 0, seq![]) == all_sides(all, i as int, pair_views(r@)),
            all == text::pieces(padding@, ','),
        decreases equations@.len() - i,
    {
        assert(all[i as int] == equations@[i as int]@);
        let parts = split_on(equations[i].as_str(), '=');
        let ghost found = text::views(parts@);
        if parts.len() != 2 {
            return None;
        }
        assert(found[0] == parts@[0]@ && found[1] == parts@[1]@);
        let ghost before = pair_views(r@);
        r.push((parts[0].clone(), parts[1].clone()));
        assert(pair_views(r@) =~= before.push((found[0], found[1])));
        i = i + 1;
    }
    Some(r)
}

/// Whether translations are merged, and if so whether by stage.
pub open spec fn merging(merge: bool, split_stages: bool) -> Option<bool> {
    if merge {
        Some(split_stages)
    } else {
        None
    }
}

/// Decides whether translations are merged, and if so whether by stage.
pub fn merge_translations(merge: bool, split_stages: bool) -> (r: Option<bool>)
    ensures
        r == merging(merge, split_stages),
        r == if merge {
            Some(split_stages)
        } else {
            None
        },
{
    if merge {
        Some(split_stages)
    } else {
        None
    }
}

/// Where graphs are placed.
#[derive(Clone, Copy, Debug, PartialEq, Eq, Structural)]
pub enum DotPlace {
    /// In the directory that is given.
    Given,
    /// In the directory for temporary files.
    Temporary,
    Nowhere,
}

/// Where graphs are placed. To view them implies that they are placed
/// somewhere.
pub open spec fn placing(dot_given: bool, temp_dot: bool, view: bool) -> DotPlace {
    if dot_given {
        DotPlace::Given
    } else if temp_dot || view {
        DotPlace::Temporary
    } else {
        DotPlace::Nowhere
    }
}

/// Decides where graphs are placed. To view them implies that they are placed
/// somewhere.
pub fn dot_place(dot_given: bool, temp_dot: bool, view: bool) -> (r: DotPlace)
    ensures
        r == placing(dot_given, temp_dot, view),
        r == if dot_given {
            DotPlace::Given
        } else if temp_dot || view {
            DotPlace::Temporary
        } else {
            DotPlace::Nowhere
        },
{
    if dot_given {
        DotPlace::Given
    } else if temp_dot || view {
        DotPlace::Temporary
    } else {
        DotPlace::Nowhere
    }
}

/// Divides the threads into groups: the threads for each test, and the number
/// of groups. `None` if the groups would not be equal.
pub fn divide_threads(num_threads: usize, thread_groups: usize) -> (r: Option<(usize, usize)>)
    requires
        thread_groups > 0,
    ensures
        match r {
            Some((per_test, groups)) => {
                &&& groups == thread_groups
                &&& per_test * groups == num_threads
            },
            None => num_threads as nat % thread_groups as nat != 0,
        },
        num_threads as nat % thread_groups as nat == 0 ==> r is Some,
{
    proof {
        vstd::arithmetic::div_mod::lemma_fundamental_div_mod(
            num_threads as int,
            thread_groups as int,
        );
        assert(thread_groups as int * (num_threads as int / thread_groups as int) == (
        num_threads as int / thread_groups as int) * thread_groups as int) by (nonlinear_arith);
    }
    if num_threads % thread_groups == 0 {
        Some((num_threads / thread_groups, thread_groups))
    } else {
        None
    }
}

/// Whether a group is to do its jobs.
pub open spec fn runs(group_id: usize, only_group: Option<usize>) -> bool {
    only_group is None || only_group == Some(group_id)
}

/// Decides whether a group is to do its jobs.
pub fn group_runs(group_id: usize, only_group: Option<usize>) -> (r: bool)
    ensures
        r == runs(group_id, only_group),
        r == (only_group is None || only_group == Some(group_id)),
{
    match only_group {
        None => true,
        Some(only) => group_id == only,
    }
}

/// A tool that turns litmus files into ones that can be read here.
#[derive(Clone, Copy, Debug, PartialEq, Eq, Structural)]
pub enum Translator {
    LitmusTranslator,
    IslaLitmus,
}

impl Translator {
    pub open spec fn spec_default_path(self) -> &'static str {
        match self {
            Translator::LitmusTranslator => "litmus-translator",
            Translator::IslaLitmus => "isla-litmus",
        }
    }

    /// The path to the tool: the one that is given, or its name.
    pub fn path(self, path: &Option<String>) -> (r: String)
        ensures
            r@ == match path {
                Some(path) => path@,
                None => self.spec_default_path()@,
            },
    {
        match path {
            Some(path) => path.clone(),
            None => match self {
                Translator::LitmusTranslator => "litmus-translator".to_owned(),
                Translator::IslaLitmus => "isla-litmus".to_owned(),
            },
        }
    }

    pub open spec fn spec_arguments(self, armv8_page_tables: bool) -> Seq<Seq<char>> {
        if armv8_page_tables {
            match self {
                Translator::LitmusTranslator => seq!["-variant"@, "VMSA"@],
                Translator::IslaLitmus => seq!["--armv8-page-tables"@],
            }
        } else {
            seq![]
        }
    }

    /// The arguments of the tool, before the name of the file.
    pub fn arguments(self, armv8_page_tables: bool) -> (r: Vec<String>)
        ensures
            text::views(r@) == self.spec_arguments(armv8_page_tables),
    {
        let mut args: Vec<String> = Vec::new();
        if armv8_page_tables {
            match self {
                Translator::LitmusTranslator => {
                    args.push("-variant".to_owned());
                    args.push("VMSA".to_owned());
                },
                Translator::IslaLitmus => {
                    args.push("--armv8-page-tables".to_owned());
                },
            }
        }
        assert(text::views(args@) =~= self.spec_arguments(armv8_page_tables));
        args
    }
}

/// The name of a file for the graph of an execution, counted from one.
pub open spec fn dot_name(test: Seq<char>, state: Seq<char>, i: usize) -> Seq<char> {
    test + "_"@ + state + "_"@ + text::decimal((i + 1) as nat) + ".dot"@
}

/// The name of a file for the picture of an execution, counted from one.
pub open spec fn png_name(test: Seq<char>, i: usize) -> Seq<char> {
    test + "_"@ + text::decimal((i + 1) as nat) + ".png"@
}

/// The heading above the graph of an execution, counted from one.
pub open spec fn heading(i: usize, total: usize, state: Seq<char>) -> Seq<char> {
    "Candidate "@ + text::decimal((i + 1) as nat) + "/"@ + text::decimal(total as nat) + " ("@
        + state + "):"@
}

/// The name of a job: its group and its number in the group.
pub open spec fn job(group_id: usize, i: usize) -> Seq<char> {
    "g"@ + text::decimal(group_id as nat) + "t"@ + text::decimal(i as nat)
}

/// Makes the name of a file for the graph of an execution.
pub fn dot_file_name(test: &str, state: &str, i: usize) -> (r: String)
    ensures
        r@ == dot_name(test@, state@, i),
        r@ == test@ + "_"@ + state@ + "_"@ + text::decimal((i + 1) as nat) + ".dot"@,
{
    test.to_owned().concat("_").concat(state).concat("_").concat(
        decimal_text(i as u128 + 1).as_str(),
    ).concat(".dot")
}

/// Makes the name of a file for the picture of an execution.
pub fn png_file_name(test: &str, i: usize) -> (r: String)
    ensures
        r@ == png_name(test@, i),
        r@ == test@ + "_"@ + text::decimal((i + 1) as nat) + ".png"@,
{
    test.to_owned().concat("_").concat(decimal_text(i as u128 + 1).as_str()).concat(".png")
}

/// Makes the heading above the graph of an execution.
pub fn candidate_heading(i: usize, total: usize, state: &str) -> (r: String)
    ensures
        r@ == heading(i, total, state@),
        r@ == "Candidate "@ + text::decimal((i + 1) as nat) + "/"@ + text::decimal(total as nat)
            + " ("@ + state@ + "):"@,
{
    "Candidate ".to_owned().concat(decimal_text(i as u128 + 1).as_str()).concat("/").concat(
        decimal_text(total as u128).as_str(),
    ).concat(" (").concat(state).concat("):")
}

/// Makes the name of a job.
pub fn job_name(group_id: usize, i: usize) -> (r: String)
    ensures
        r@ == job(group_id, i),
        r@ == "g"@ + text::decimal(group_id as nat) + "t"@ + text::decimal(i as nat),
{
    "g".to_owned().concat(decimal_text(group_id as u128).as_str()).concat("t").concat(
        decimal_text(i as u128).as_str(),
    )
}

} // verus!
