//! Verified core of a symbolic execution engine for instruction set specifications.

pub mod axiomatic;
pub mod bitvector;
pub mod bv;
pub mod executor;
pub mod handover;
pub mod messages;
pub mod numbers;
pub mod page_table;
pub mod smt;
pub mod text;
