//! Running litmus tests against an axiomatic memory model.

pub mod at_file;
pub mod group;
pub mod hash;
pub mod laws;
pub mod names;
pub mod options;
pub mod queue;
pub mod refs;
pub mod report;
pub mod result;
