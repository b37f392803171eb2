//! The command-line tool.
use vstd::prelude::*;

pub mod attach;
pub mod backend;
pub mod bpftool;
pub mod check;
pub mod cli;
pub mod client;
pub mod edits;
pub mod monitor;
pub mod run;

verus! {

} // verus!
