use vstd::prelude::*;

pub mod acl_key;
pub mod agreement;
pub mod balance;
pub mod bytes;
pub mod checking;
pub mod commands;
pub mod conduct;
pub mod ctl;
pub mod daemon;
pub mod display;
pub mod frames;
pub mod headers;
pub mod json;
pub mod laws;
pub mod lines;
pub mod listings;
pub mod loading;
pub mod maps;
pub mod packet;
pub mod protocol;
pub mod purpose;
pub mod records;
pub mod requests;
pub mod runs;
pub mod shortened;
pub mod text;
pub mod trace;
pub mod trail;
pub mod watching;
pub mod xdp;
pub mod yaml;

verus! {
} // verus!
