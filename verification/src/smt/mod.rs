//! SMTLIB expressions: evaluation, rewriting, typing and meaning.

pub mod eval;
pub mod folding;
pub mod infer;
pub mod laws;
pub mod literal;
pub mod rewrite;
pub mod semantics;
pub mod smtlib;
pub mod subst;
pub mod tree;
pub mod typing;
