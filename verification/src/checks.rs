//! The semantic checks that run on a parsed program.

pub mod recursion;
pub mod usage;
