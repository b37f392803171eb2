//! The messages between the command-line tool and the daemon.
use vstd::prelude::*;

use crate::text::texts;

verus! {

/// A command to the daemon.
#[allow(inconsistent_fields)]
#[derive(Debug)]
pub enum Command {
    AclList { iface: String },
    AclAdd {
        iface: String,
        action: String,
        src: String,
        dst: String,
        proto: Option<String>,
        rate: Option<u32>,
    },
    AclDel { iface: String, id: usize },
    AclVlanList { iface: String },
    AclVlanAdd {
        iface: String,
        vlan_id: u16,
        action: String,
        inner_vlan: Option<u16>,
        rate: Option<u32>,
    },
    AclVlanDel { iface: String, id: usize },
    CountersShow { iface: String },
    ConntrackShow { iface: String },
    RateLimitShow { iface: String },
    EventMaskGet,
    EventMaskSet { mask: u64 },
    ConfigReload { path: Option<String> },
    CheckXdpAttached { iface: String },
    BackendList { iface: String },
    BackendAdd { iface: String, ip: String, port: u16, dev: String, group: Option<u32> },
    BackendRm { iface: String, id: u32 },
    BackendFlush { iface: String },
    ServiceList { iface: String },
    ServiceAdd { iface: String, addr: String, port: u16, proto: String, group: Option<u32> },
    ServiceRm { iface: String, addr: String, port: u16, proto: String },
    ServiceFlush { iface: String },
}

/// An answer of the daemon.
#[derive(Debug)]
pub enum Response {
    Success(String),
    Error(String),
    ListResult(Vec<String>),
    CountResult(usize),
    CounterResult(Vec<CounterData>),
    AttachmentResult { attached: bool, prog_id: Option<u32> },
    MaskResult(u64),
}

/// A counter in an answer.
#[derive(Debug, Clone)]
pub struct CounterData {
    pub id: u32,
    pub name: String,
    pub value: u64,
}

/// What a command says.
#[allow(inconsistent_fields)]
#[verifier::ext_equal]
pub enum CommandView {
    AclList { iface: Seq<char> },
    AclAdd {
        iface: Seq<char>,
        action: Seq<char>,
        src: Seq<char>,
        dst: Seq<char>,
        proto: Option<Seq<char>>,
        rate: Option<u32>,
    },
    AclDel { iface: Seq<char>, id: usize },
    AclVlanList { iface: Seq<char> },
    AclVlanAdd {
        iface: Seq<char>,
        vlan_id: u16,
        action: Seq<char>,
        inner_vlan: Option<u16>,
        rate: Option<u32>,
    },
    AclVlanDel { iface: Seq<char>, id: usize },
    CountersShow { iface: Seq<char> },
    ConntrackShow { iface: Seq<char> },
    RateLimitShow { iface: Seq<char> },
    EventMaskGet,
    EventMaskSet { mask: u64 },
    ConfigReload { path: Option<Seq<char>> },
    CheckXdpAttached { iface: Seq<char> },
    BackendList { iface: Seq<char> },
    BackendAdd {
        iface: Seq<char>,
        ip: Seq<char>,
        port: u16,
        dev: Seq<char>,
        group: Option<u32>,
    },
    BackendRm { iface: Seq<char>, id: u32 },
    BackendFlush { iface: Seq<char> },
    ServiceList { iface: Seq<char> },
    ServiceAdd {
        iface: Seq<char>,
        addr: Seq<char>,
        port: u16,
        proto: Seq<char>,
        group: Option<u32>,
    },
    ServiceRm { iface: Seq<char>, addr: Seq<char>, port: u16, proto: Seq<char> },
    ServiceFlush { iface: Seq<char> },
}

impl View for Command {
    type V = CommandView;

    open spec fn view(&self) -> CommandView {
        match self {
            Command::AclList { iface } => CommandView::AclList { iface: iface@ },
            Command::AclAdd { iface, action, src, dst, proto, rate } => CommandView::AclAdd {
                iface: iface@,
                action: action@,
                src: src@,
                dst: dst@,
                proto: crate::text::opt_text(*proto),
                rate: *rate,
            },
            Command::AclDel { iface, id } => CommandView::AclDel { iface: iface@, id: *id },
            Command::AclVlanList { iface } => CommandView::AclVlanList { iface: iface@ },
            Command::AclVlanAdd { iface, vlan_id, action, inner_vlan, rate } =>
                CommandView::AclVlanAdd {
                iface: iface@,
                vlan_id: *vlan_id,
                action: action@,
                inner_vlan: *inner_vlan,
                rate: *rate,
            },
            Command::AclVlanDel { iface, id } => CommandView::AclVlanDel { iface: iface@, id: *id },
            Command::CountersShow { iface } => CommandView::CountersShow { iface: iface@ },
            Command::ConntrackShow { iface } => CommandView::ConntrackShow { iface: iface@ },
            Command::RateLimitShow { iface } => CommandView::RateLimitShow { iface: iface@ },
            Command::EventMaskGet => CommandView::EventMaskGet,
            Command::EventMaskSet { mask } => CommandView::EventMaskSet { mask: *mask },
            Command::ConfigReload { path } => CommandView::ConfigReload {
                path: crate::text::opt_text(*path),
            },
            Command::CheckXdpAttached { iface } => CommandView::CheckXdpAttached { iface: iface@ },
            Command::BackendList { iface } => CommandView::BackendList { iface: iface@ },
            Command::BackendAdd { iface, ip, port, dev, group } => CommandView::BackendAdd {
                iface: iface@,
                ip: ip@,
                port: *port,
                dev: dev@,
                group: *group,
            },
            Command::BackendRm { iface, id } => CommandView::BackendRm { iface: iface@, id: *id },
            Command::BackendFlush { iface } => CommandView::BackendFlush { iface: iface@ },
            Command::ServiceList { iface } => CommandView::ServiceList { iface: iface@ },
            Command::ServiceAdd { iface, addr, port, proto, group } => CommandView::ServiceAdd {
                iface: iface@,
                addr: addr@,
                port: *port,
                proto: proto@,
                group: *group,
            },
            Command::ServiceRm { iface, addr, port, proto } => CommandView::ServiceRm {
                iface: iface@,
                addr: addr@,
                port: *port,
                proto: proto@,
            },
            Command::ServiceFlush { iface } => CommandView::ServiceFlush { iface: iface@ },
        }
    }
}

/// What a counter of an answer says.
#[verifier::ext_equal]
pub struct CounterView {
    pub id: u32,
    pub name: Seq<char>,
    pub value: u64,
}

impl View for CounterData {
    type V = CounterView;

    open spec fn view(&self) -> CounterView {
        CounterView { id: self.id, name: self.name@, value: self.value }
    }
}

pub open spec fn counter_views(v: Seq<CounterData>) -> Seq<CounterView> {
    Seq::new(v.len(), |i: int| v[i]@)
}

/// What an answer says.
#[verifier::ext_equal]
pub enum ResponseView {
    Success(Seq<char>),
    Error(Seq<char>),
    ListResult(Seq<Seq<char>>),
    CountResult(usize),
    CounterResult(Seq<CounterView>),
    AttachmentResult { attached: bool, prog_id: Option<u32> },
    MaskResult(u64),
}

impl View for Response {
    type V = ResponseView;

    open spec fn view(&self) -> ResponseView {
        match self {
            Response::Success(s) => ResponseView::Success(s@),
            Response::Error(s) => ResponseView::Error(s@),
            Response::ListResult(v) => ResponseView::ListResult(texts(v@)),
            Response::CountResult(n) => ResponseView::CountResult(*n),
            Response::CounterResult(v) => ResponseView::CounterResult(counter_views(v@)),
            Response::AttachmentResult { attached, prog_id } => ResponseView::AttachmentResult {
                attached: *attached,
                prog_id: *prog_id,
            },
            Response::MaskResult(m) => ResponseView::MaskResult(*m),
        }
    }
}

} // verus!
