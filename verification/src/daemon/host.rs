//! What the daemon needs from the machine besides the maps.
use vstd::prelude::*;

use crate::daemon::config::Config;
use crate::daemon::kernel::{Kernel, MapError};

verus! {

/// An XDP link of the kernel.
#[derive(Debug)]
pub struct LinkRecord {
    pub id: u32,
    pub prog_id: u32,
    pub ifindex: u32,
}

/// A loaded program of the kernel.
#[derive(Debug)]
pub struct ProgRecord {
    pub id: u32,
    pub name: String,
    /// Whether it is an XDP program.
    pub xdp: bool,
    pub ifindex: u32,
    pub netns_ino: u64,
    pub map_ids: Vec<u32>,
}

/// A loaded map of the kernel.
#[derive(Debug)]
pub struct MapRecord {
    pub id: u32,
    /// The name, where it is a text.
    pub name: Option<String>,
    /// Whether it is a ring buffer.
    pub ringbuf: bool,
    pub max_entries: u32,
}

/// The machine the daemon runs on. Nothing is assumed of what it answers.
pub trait Host: Kernel {
    /// The configuration in a file.
    fn load_config(&self, path: String) -> Result<Config, MapError>;

    /// The number of an interface, 0 where there is none of the name.
    fn if_nametoindex(&self, name: String) -> u32;

    /// The name of an interface as the kernel writes it.
    fn if_indextoname(&self, ifindex: u32) -> Option<String>;

    /// The XDP links.
    fn xdp_links(&self) -> Vec<LinkRecord>;

    /// The loaded programs.
    fn programs(&self) -> Vec<ProgRecord>;

    /// The number of the network namespace of the daemon.
    fn netns_ino(&self) -> Option<u64>;

    /// The loaded maps.
    fn maps(&self) -> Vec<MapRecord>;

    /// A loaded map by its number, where it can be opened.
    fn map_by_id(&self, id: u32) -> Option<MapRecord>;
}

} // verus!
