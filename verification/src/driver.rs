//! The decisions of the command line: what to build, which artifacts to run, and whether a run
//! has passed.

pub mod request;
pub mod artifacts;
pub mod trial;
