//! Whether a candidate execution is allowed.

use crate::text::{self, starts_with};
use vstd::prelude::*;

verus! {

/// A graph that has been made of an execution.
pub type GraphId = usize;

#[derive(Debug)]
pub enum AxResult {
    Allowed(Option<GraphId>),
    Forbidden(Option<GraphId>),
    Error(Option<GraphId>, String),
}

impl AxResult {
    pub open spec fn spec_short_name(self) -> &'static str {
        match self {
            AxResult::Allowed(_) => "allowed",
            AxResult::Forbidden(_) => "forbidden",
            AxResult::Error(_, _) => "error",
        }
    }

    pub fn short_name(&self) -> (r: &'static str)
        ensures
            r@ == self.spec_short_name()@,
    {
        match self {
            AxResult::Allowed(_) => "allowed",
            AxResult::Forbidden(_) => "forbidden",
            AxResult::Error(_, _) => "error",
        }
    }

    pub fn is_allowed(&self) -> (r: bool)
        ensures
            r == (*self is Allowed),
    {
        matches!(self, AxResult::Allowed(_))
    }

    pub fn is_error(&self) -> (r: bool)
        ensures
            r == (*self is Error),
    {
        matches!(self, AxResult::Error(_, _))
    }

    /// Whether two results are of the same kind.
    pub open spec fn same_kind(self, other: AxResult) -> bool {
        ||| self is Allowed && other is Allowed
        ||| self is Forbidden && other is Forbidden
        ||| self is Error && other is Error
    }

    pub fn matches(&self, other: &AxResult) -> (r: bool)
        ensures
            r == self.same_kind(*other),
    {
        match (self, other) {
            (AxResult::Allowed(_), AxResult::Allowed(_)) => true,
            (AxResult::Forbidden(_), AxResult::Forbidden(_)) => true,
            (AxResult::Error(_, _), AxResult::Error(_, _)) => true,
            (_, _) => false,
        }
    }

    /// The graph that goes with the result.
    pub open spec fn spec_graph(self) -> Option<GraphId> {
        match self {
            AxResult::Allowed(graph) => graph,
            AxResult::Forbidden(graph) => graph,
            AxResult::Error(graph, _) => graph,
        }
    }

    pub fn graph(&self) -> (r: Option<GraphId>)
        ensures
            r == self.spec_graph(),
    {
        match self {
            AxResult::Allowed(graph) => *graph,
            AxResult::Forbidden(graph) => *graph,
            AxResult::Error(graph, _) => *graph,
        }
    }

    /// How the result is called in the names of files.
    pub open spec fn spec_state(self) -> &'static str {
        match self {
            AxResult::Allowed(_) => "allow",
            AxResult::Forbidden(_) => "forbid",
            AxResult::Error(_, _) => "err",
        }
    }

    pub fn state(&self) -> (r: &'static str)
        ensures
            r@ == self.spec_state()@,
    {
        match self {
            AxResult::Allowed(_) => "allow",
            AxResult::Forbidden(_) => "forbid",
            AxResult::Error(_, _) => "err",
        }
    }
}

/// The opposite result.
pub open spec fn negated(result: AxResult) -> AxResult {
    match result {
        AxResult::Allowed(_) => AxResult::Forbidden(None),
        _ => AxResult::Allowed(None),
    }
}

pub fn negate_result(result: AxResult) -> (r: AxResult)
    requires
        !(result is Error),
    ensures
        r == negated(result),
{
    match result {
        AxResult::Allowed(_) => AxResult::Forbidden(None),
        _ => AxResult::Allowed(None),
    }
}

/// Negating a result twice gives a result of the same kind.
pub proof fn law_negate_twice(result: AxResult)
    requires
        !(result is Error),
    ensures
        !(negated(result) is Error),
        !negated(result).same_kind(result),
        negated(negated(result)).same_kind(result),
{
}

/// A graph that is to be made of an execution.
#[derive(Clone, Copy, Debug, PartialEq, Eq, Structural)]
pub enum WantedGraph {
    /// Of an execution that the solver has found.
    FromOutput,
    /// Of an execution that cannot happen.
    FromUnsat,
}

/// Which graph is to be made, given what the solver has printed: one of an
/// execution that is found if there is a place for graphs, and one of any
/// other if such graphs are asked for as well.
pub open spec fn graph_wanted(output: Seq<char>, has_dot_path: bool, show_forbidden: bool) -> Option<
    WantedGraph,
> {
    if text::begins_with(output, "sat"@) {
        if has_dot_path {
            Some(WantedGraph::FromOutput)
        } else {
            None
        }
    } else if has_dot_path && show_forbidden {
        Some(WantedGraph::FromUnsat)
    } else {
        None
    }
}

pub fn wanted_graph(z3_output: &str, has_dot_path: bool, show_forbidden: bool) -> (r: Option<
    WantedGraph,
>)
    ensures
        r == graph_wanted(z3_output@, has_dot_path, show_forbidden),
{
    if starts_with(z3_output, "sat") {
        if has_dot_path {
            Some(WantedGraph::FromOutput)
        } else {
            None
        }
    } else if has_dot_path && show_forbidden {
        Some(WantedGraph::FromUnsat)
    } else {
        None
    }
}

/// What the output of the solver says of an execution: allowed if it can be
/// satisfied, forbidden if it cannot, and else an error that keeps the
/// output.
pub fn classify(z3_output: &str, graph: Option<GraphId>) -> (r: AxResult)
    ensures
        if text::begins_with(z3_output@, "sat"@) {
            r == AxResult::Allowed(graph)
        } else if text::begins_with(z3_output@, "unsat"@) {
            r == AxResult::Forbidden(graph)
        } else {
            r matches AxResult::Error(g, s) && g == graph && s@ == z3_output@
        },
{
    if starts_with(z3_output, "sat") {
        AxResult::Allowed(graph)
    } else if starts_with(z3_output, "unsat") {
        AxResult::Forbidden(graph)
    } else {
        AxResult::Error(graph, z3_output.to_owned())
    }
}

} // verus!
