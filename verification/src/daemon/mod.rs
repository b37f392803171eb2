//! The management daemon: kernel maps, configuration and the command protocol.
use vstd::prelude::*;

pub mod api;
pub mod args;
pub mod attach;
pub mod backend;
pub mod config;
pub mod contents;
pub mod kernel;
pub mod host;
pub mod maps;
pub mod monitoring;
pub mod reload;
pub mod service;
pub mod session;

verus! {

} // verus!
