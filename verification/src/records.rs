//! Backends and services as map entries.
use vstd::prelude::*;

use crate::acl_key::{zeros, Ipv4};
use crate::bytes::{
    from_le16, from_le32, le16, le32, push_all, push_le16, push_le32, read_le16, read_le32,
};
use crate::maps::{Backend, AF_INET, IP_PROTO_TCP};
use crate::packet::read_addr16;
use crate::text::{hex_bytes, key_to_hex};

verus! {

// ---- Backends ----

/// What a backend says.
#[verifier::ext_equal]
pub struct BackendView {
    pub addr: Seq<u8>,
    pub port: u16,
    pub family: u8,
    pub proto: u8,
    pub ifindex: u32,
    pub weight: u32,
    pub backend_group: u32,
    pub flags: u32,
    pub mac: Seq<u8>,
    pub pad: Seq<u8>,
}

impl View for Backend {
    type V = BackendView;

    open spec fn view(&self) -> BackendView {
        BackendView {
            addr: self.addr@,
            port: self.port,
            family: self.family,
            proto: self.proto,
            ifindex: self.ifindex,
            weight: self.weight,
            backend_group: self.backend_group,
            flags: self.flags,
            mac: self.mac@,
            pad: self._pad@,
        }
    }
}

/// The backend of an unused slot.
pub open spec fn no_backend() -> BackendView {
    BackendView {
        addr: zeros(16),
        port: 0,
        family: 0,
        proto: 0,
        ifindex: 0,
        weight: 0,
        backend_group: 0,
        flags: 0,
        mac: zeros(6),
        pad: zeros(2),
    }
}

impl BackendView {
    /// The 48 bytes of the backend in the kernel map.
    pub open spec fn bytes(self) -> Seq<u8> {
        self.addr + le16(self.port) + seq![self.family, self.proto] + le32(self.ifindex) + le32(
            self.weight,
        ) + le32(self.backend_group) + le32(self.flags) + self.mac + self.pad + zeros(4)
    }
}

/// The backend in the bytes of a kernel map. Too few bytes are an unused slot.
pub open spec fn backend_in(b: Seq<u8>) -> BackendView {
    if b.len() < 48 {
        no_backend()
    } else {
        BackendView {
            addr: b.subrange(0, 16),
            port: from_le16(b.skip(16)),
            family: b[18],
            proto: b[19],
            ifindex: from_le32(b.skip(20)),
            weight: from_le32(b.skip(24)),
            backend_group: from_le32(b.skip(28)),
            flags: from_le32(b.skip(32)),
            mac: b.subrange(36, 42),
            pad: b.subrange(42, 44),
        }
    }
}

impl Default for Backend {
    fn default() -> (r: Self)
        ensures
            r@ == no_backend(),
    {
        let r = Backend {
            addr: [0u8; 16],
            port: 0,
            family: 0,
            proto: 0,
            ifindex: 0,
            weight: 0,
            backend_group: 0,
            flags: 0,
            mac: [0u8; 6],
            _pad: [0u8; 2],
        };
        assert(r.addr@ =~= zeros(16));
        assert(r.mac@ =~= zeros(6));
        assert(r._pad@ =~= zeros(2));
        r
    }
}

/// The bytes of a backend in the kernel map.
pub fn backend_to_bytes(b: &Backend) -> (r: Vec<u8>)
    ensures
        r@ == b@.bytes(),
        r@.len() == 48,
{
    let mut v: Vec<u8> = Vec::new();
    push_all(&mut v, b.addr.as_slice());
    push_le16(&mut v, b.port);
    v.push(b.family);
    v.push(b.proto);
    push_le32(&mut v, b.ifindex);
    push_le32(&mut v, b.weight);
    push_le32(&mut v, b.backend_group);
    push_le32(&mut v, b.flags);
    push_all(&mut v, b.mac.as_slice());
    push_all(&mut v, b._pad.as_slice());
    push_le32(&mut v, 0);
    assert(le32(0) =~= zeros(4));
    assert(v@ =~= b@.bytes());
    v
}

/// The backend in the bytes of a kernel map.
pub fn backend_from_bytes(bytes: &Vec<u8>) -> (r: Backend)
    ensures
        r@ == backend_in(bytes@),
{
    if bytes.len() < 48 {
        return Backend::default();
    }
    let b = bytes.as_slice();
    let r = Backend {
        addr: read_addr16(b, 0),
        port: read_le16(b, 16),
        family: b[18],
        proto: b[19],
        ifindex: read_le32(b, 20),
        weight: read_le32(b, 24),
        backend_group: read_le32(b, 28),
        flags: read_le32(b, 32),
        mac: [b[36], b[37], b[38], b[39], b[40], b[41]],
        _pad: [b[42], b[43]],
    };
    assert(r.mac@ =~= bytes@.subrange(36, 42));
    assert(r._pad@ =~= bytes@.subrange(42, 44));
    r
}

/// Reading the bytes of a backend gives the backend back.
pub proof fn backend_bytes_roundtrip(b: BackendView)
    requires
        b.addr.len() == 16,
        b.mac.len() == 6,
        b.pad.len() == 2,
    ensures
        backend_in(b.bytes()) == b,
        b.bytes().len() == 48,
{
    let s = b.bytes();
    crate::bytes::lemma_le16_roundtrip(b.port);
    crate::bytes::lemma_le32_roundtrip(b.ifindex);
    crate::bytes::lemma_le32_roundtrip(b.weight);
    crate::bytes::lemma_le32_roundtrip(b.backend_group);
    crate::bytes::lemma_le32_roundtrip(b.flags);
    assert(s.subrange(0, 16) =~= b.addr);
    assert(s.subrange(16, 18) =~= le16(b.port));
    assert(s.skip(16)[0] == le16(b.port)[0] && s.skip(16)[1] == le16(b.port)[1]);
    lemma_le32_at(s, 20, b.ifindex);
    lemma_le32_at(s, 24, b.weight);
    lemma_le32_at(s, 28, b.backend_group);
    lemma_le32_at(s, 32, b.flags);
    assert(s.subrange(36, 42) =~= b.mac);
    assert(s.subrange(42, 44) =~= b.pad);
    assert(backend_in(s) =~= b);
}

proof fn lemma_le32_at(s: Seq<u8>, at: int, v: u32)
    requires
        0 <= at,
        at + 4 <= s.len(),
        s[at] == le32(v)[0],
        s[at + 1] == le32(v)[1],
        s[at + 2] == le32(v)[2],
        s[at + 3] == le32(v)[3],
    ensures
        from_le32(s.skip(at)) == v,
{
    crate::bytes::lemma_le32_roundtrip(v);
}

/// Whether a backend is marked as unhealthy.
pub fn is_unhealthy(b: &Backend) -> (r: bool)
    ensures
        r == b.unhealthy(),
{
    b.is_unhealthy()
}

/// A backend to be added.
#[derive(Debug)]
pub struct BackendSpec {
    pub ip: Ipv4,
    pub port: u16,
    pub dev: String,
    pub group: u32,
}

impl BackendSpec {
    /// The backend on an interface: IPv4, TCP, healthy.
    pub open spec fn backend(self, ifindex: u32) -> BackendView {
        BackendView {
            addr: zeros(10) + seq![0xffu8, 0xff] + self.ip@.addr,
            port: self.port,
            family: AF_INET,
            proto: IP_PROTO_TCP,
            ifindex,
            weight: 1,
            backend_group: self.group,
            flags: 0,
            mac: zeros(6),
            pad: zeros(2),
        }
    }

    /// The backend on an interface.
    pub fn build(&self, ifindex: u32) -> (r: Backend)
        ensures
            r@ == self.backend(ifindex),
    {
        let r = Backend {
            addr: self.ip.to_mapped(),
            port: self.port,
            family: AF_INET,
            proto: IP_PROTO_TCP,
            ifindex,
            weight: 1,
            backend_group: self.group,
            flags: 0,
            mac: [0u8; 6],
            _pad: [0u8; 2],
        };
        assert(r.mac@ =~= zeros(6));
        assert(r._pad@ =~= zeros(2));
        r
    }
}

/// The bytes of a backend as a text.
pub fn backend_hex(spec: &BackendSpec, ifindex: u32) -> (r: String)
    ensures
        r@ == hex_bytes(spec.backend(ifindex).bytes()),
{
    let bytes = backend_to_bytes(&spec.build(ifindex));
    key_to_hex(bytes.as_slice())
}

// ---- Services ----

/// The key of a service.
pub open spec fn service_key(addr: Seq<u8>, port: u16, proto: u8, family: u8) -> Seq<u8> {
    addr + le16(port) + seq![proto, family]
}

/// The value of a service: the backend group, the scheduler, the lowest byte
/// of the flags, and zeros.
pub open spec fn service_value(backend_group: u32, flags: u32) -> Seq<u8> {
    le32(backend_group) + seq![0u8, (flags % 256) as u8] + zeros(22)
}

/// The key of a service, 20 bytes; the port in host order, as the packet
/// program keeps it.
pub fn service_key_to_bytes(addr: &[u8; 16], port: u16, proto: u8, family: u8) -> (r: Vec<u8>)
    ensures
        r@ == service_key(addr@, port, proto, family),
        r@.len() == 20,
{
    let mut v: Vec<u8> = Vec::new();
    push_all(&mut v, addr.as_slice());
    push_le16(&mut v, port);
    v.push(proto);
    v.push(family);
    assert(v@ =~= service_key(addr@, port, proto, family));
    v
}

/// The value of a service, 28 bytes.
pub fn service_val_to_bytes(backend_group: u32, flags: u32) -> (r: Vec<u8>)
    ensures
        r@ == service_value(backend_group, flags),
        r@.len() == 28,
{
    let mut v: Vec<u8> = Vec::new();
    push_le32(&mut v, backend_group);
    v.push(0);
    v.push((flags % 256) as u8);
    push_le16(&mut v, 0);
    let nothing = [0u8; 16];
    push_all(&mut v, nothing.as_slice());
    push_le16(&mut v, 0);
    push_le16(&mut v, 0);
    assert(v@ =~= service_value(backend_group, flags));
    v
}

} // verus!
