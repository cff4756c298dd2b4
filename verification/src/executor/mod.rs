//! The core of the symbolic execution engine.

pub mod assign;
pub mod call;
pub mod choices;
pub mod collect;
pub mod error;
pub mod eval;
pub mod explore;
pub mod forks;
pub mod frame;
pub mod functions;
pub mod indexed;
pub mod initial;
pub mod instructions;
pub mod ir;
pub mod laws;
pub mod multi;
pub mod names;
pub mod outcomes;
pub mod places;
pub mod prefix;
pub mod queue;
pub mod refusals;
pub mod replay;
pub mod reset;
pub mod resets;
pub mod run;
pub mod solver;
pub mod special;
pub mod state;
pub mod stop;
pub mod task;
pub mod vector;
