//! Lifetime checking for the programs of ZZ, a small language that is compiled to C, and the
//! decisions of its command line.

pub mod text;
pub mod location;
pub mod name;
pub mod tags;
pub mod ast;
pub mod report;
pub mod report_laws;
pub mod lifetimes;
pub mod driver;
