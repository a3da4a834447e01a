//! Scaffolding of a test tree that mirrors a source tree.
//!
//! A source tree is planned into a tree of test directories and test files,
//! each named after the source entry it stands for, and the plan is then laid
//! out as an ordered list of build steps that create only what is missing.

pub mod builder;
pub mod naming;
pub mod paths;
pub mod plan;
pub mod source;
pub mod target;
