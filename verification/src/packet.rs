//! From the bytes of a frame to a packet descriptor.
use vstd::prelude::*;

use crate::bytes::{from_be16, read_be16};
use crate::maps::{
    FlowKey, Packet, ParseError, VlanTag, AF_INET, AF_INET6, ETH_HDR_LEN, ETH_P_8021AD, ETH_P_8021Q,
    ETH_P_IP, ETH_P_IPV6, ETH_TYPE_OFFSET, IP_PROTO_DSTOPTS, IP_PROTO_FRAGMENT, IP_PROTO_HOPOPTS,
    IP_PROTO_ICMP, IP_PROTO_ICMPV6, IP_PROTO_ROUTING, IP_PROTO_TCP, IP_PROTO_UDP,
    MAX_IPV6_EXT_HEADERS, MAX_VLAN_DEPTH, VLAN_HDR_LEN,
};

verus! {

/// What a packet descriptor says, with its byte strings as sequences.
#[verifier::ext_equal]
pub struct PacketView {
    pub src_addr: Seq<u8>,
    pub dst_addr: Seq<u8>,
    pub src_port: u16,
    pub dst_port: u16,
    pub family: u8,
    pub ip_proto: u8,
    pub len: int,
    pub tcp_flags: u8,
    pub is_fragment: bool,
    pub payload_offset: int,
    pub l3_offset: int,
    pub l4_offset: int,
    pub vlan_depth: int,
    pub vlan: Seq<VlanTag>,
}

impl View for Packet {
    type V = PacketView;

    open spec fn view(&self) -> PacketView {
        PacketView {
            src_addr: self.flow.src_addr@,
            dst_addr: self.flow.dst_addr@,
            src_port: self.flow.src_port,
            dst_port: self.flow.dst_port,
            family: self.flow.family,
            ip_proto: self.flow.ip_proto,
            len: self.len as int,
            tcp_flags: self.tcp_flags,
            is_fragment: self.is_fragment,
            payload_offset: self.payload_offset as int,
            l3_offset: self.l3_offset as int,
            l4_offset: self.l4_offset as int,
            vlan_depth: self.vlan_depth as int,
            vlan: self.vlan@,
        }
    }
}

/// `r` with a packet replaced by what it says.
pub open spec fn outcome(r: Result<Packet, ParseError>) -> Result<PacketView, ParseError> {
    match r {
        Ok(p) => Ok(p@),
        Err(e) => Err(e),
    }
}

/// The big-endian number at `off`.
pub open spec fn be16_at(f: Seq<u8>, off: int) -> u16 {
    from_be16(f.skip(off))
}

pub open spec fn no_tag() -> VlanTag {
    VlanTag { id: 0, pcp: 0, dei: false }
}

/// A tag from its control word: 3 bits of priority, the drop-eligible bit and
/// 12 bits of identifier.
pub open spec fn tag_of(tci: u16) -> VlanTag {
    VlanTag { id: (tci % 4096) as u16, pcp: (tci / 8192) as u8, dei: tci / 4096 % 2 == 1 }
}

/// The tags found, in an array with room for two.
pub open spec fn padded(tags: Seq<VlanTag>) -> Seq<VlanTag> {
    Seq::new(2, |i: int| if i < tags.len() { tags[i] } else { no_tag() })
}

/// A frame whose VLAN tags have been read: where the next header starts, its
/// type, and the tags.
#[verifier::ext_equal]
pub struct Untagged {
    pub offset: int,
    pub eth_proto: u16,
    pub tags: Seq<VlanTag>,
}

/// Reads tags from `offset` on until the type is none of the two tag types or
/// two tags have been read.
pub open spec fn untag(f: Seq<u8>, offset: int, eth_proto: u16, tags: Seq<VlanTag>) -> Result<
    Untagged,
    ParseError,
>
    decreases 2 - tags.len(),
{
    if tags.len() >= 2 || (eth_proto != ETH_P_8021Q && eth_proto != ETH_P_8021AD) {
        Ok(Untagged { offset, eth_proto, tags })
    } else if offset + 4 > f.len() {
        Err(ParseError::Malformed)
    } else {
        untag(f, offset + 4, be16_at(f, offset + 2), tags.push(tag_of(be16_at(f, offset))))
    }
}

/// The part of a TCP, UDP or ICMP header that the flow needs.
#[derive(Clone, Copy, Debug, PartialEq, Eq, Structural)]
pub struct L4Header {
    pub src_port: u16,
    pub dst_port: u16,
    pub tcp_flags: u8,
    pub len: usize,
}

/// The header at `off` of protocol `proto`; any protocol but TCP and UDP has
/// an eight-byte header without ports.
pub open spec fn l4_header(f: Seq<u8>, off: int, proto: u8) -> Result<L4Header, ParseError> {
    if proto == IP_PROTO_TCP {
        if off + 20 > f.len() || f[off + 12] / 16 < 5 || off + 4 * (f[off + 12] / 16) > f.len() {
            Err(ParseError::Malformed)
        } else {
            Ok(
                L4Header {
                    src_port: be16_at(f, off),
                    dst_port: be16_at(f, off + 2),
                    tcp_flags: f[off + 13],
                    len: (4 * (f[off + 12] / 16)) as usize,
                },
            )
        }
    } else if off + 8 > f.len() {
        Err(ParseError::Malformed)
    } else if proto == IP_PROTO_UDP {
        Ok(
            L4Header {
                src_port: be16_at(f, off),
                dst_port: be16_at(f, off + 2),
                tcp_flags: 0,
                len: 8,
            },
        )
    } else {
        Ok(L4Header { src_port: 0, dst_port: 0, tcp_flags: 0, len: 8 })
    }
}

/// An IPv4 address behind twelve zero bytes.
pub open spec fn widened(addr: Seq<u8>) -> Seq<u8> {
    Seq::new(12, |i: int| 0u8) + addr
}

/// The IPv4 packet whose header starts at `l3` of the frame `f`, which starts
/// at address `data`.
pub open spec fn ipv4_packet(f: Seq<u8>, data: int, l3: int, packet_len: int) -> Result<
    PacketView,
    ParseError,
> {
    let ihl = 4 * (f[l3] % 16);
    let ip_proto = f[l3 + 9];
    let frag = be16_at(f, l3 + 6);
    let l4 = l4_header(f, l3 + ihl, ip_proto);
    if l3 + 20 > f.len() || f[l3] / 16 != 4 || ihl < 20 || l3 + ihl > f.len() {
        Err(ParseError::Malformed)
    } else if ip_proto != IP_PROTO_TCP && ip_proto != IP_PROTO_UDP && ip_proto != IP_PROTO_ICMP {
        Err(ParseError::Unsupported)
    } else {
        match l4 {
            Err(e) => Err(e),
            Ok(h) => Ok(
                PacketView {
                    src_addr: widened(f.subrange(l3 + 12, l3 + 16)),
                    dst_addr: widened(f.subrange(l3 + 16, l3 + 20)),
                    src_port: h.src_port,
                    dst_port: h.dst_port,
                    family: AF_INET,
                    ip_proto,
                    len: packet_len,
                    tcp_flags: h.tcp_flags,
                    is_fragment: frag / 8192 % 2 == 1 || frag % 8192 != 0,
                    payload_offset: l3 + ihl + h.len,
                    l3_offset: data + l3,
                    l4_offset: data + l3 + ihl,
                    vlan_depth: 0,
                    vlan: padded(Seq::empty()),
                },
            ),
        }
    }
}

/// An IPv6 packet whose extension headers have been read: the protocol and the
/// offset of the header behind them, and whether one was a fragment header.
pub struct Unwrapped {
    pub ip_proto: u8,
    pub offset: int,
    pub is_fragment: bool,
}

/// Reads at most `budget` extension headers from `at.offset` on.
pub open spec fn unwrap_headers(f: Seq<u8>, at: Unwrapped, budget: nat) -> Result<
    Unwrapped,
    ParseError,
>
    decreases budget,
{
    let off = at.offset;
    if budget == 0 {
        Ok(at)
    } else if at.ip_proto == IP_PROTO_HOPOPTS || at.ip_proto == IP_PROTO_ROUTING || at.ip_proto
        == IP_PROTO_DSTOPTS {
        if off + 2 > f.len() || off + 8 * (f[off + 1] + 1) > f.len() {
            Err(ParseError::Malformed)
        } else {
            unwrap_headers(
                f,
                Unwrapped {
                    ip_proto: f[off],
                    offset: off + 8 * (f[off + 1] + 1),
                    is_fragment: at.is_fragment,
                },
                (budget - 1) as nat,
            )
        }
    } else if at.ip_proto == IP_PROTO_FRAGMENT {
        if off + 8 > f.len() {
            Err(ParseError::Malformed)
        } else {
            unwrap_headers(
                f,
                Unwrapped { ip_proto: f[off], offset: off + 8, is_fragment: true },
                (budget - 1) as nat,
            )
        }
    } else {
        Ok(at)
    }
}

/// The IPv6 packet whose header starts at `l3` of the frame `f`, which starts
/// at address `data`.
pub open spec fn ipv6_packet(f: Seq<u8>, data: int, l3: int, packet_len: int) -> Result<
    PacketView,
    ParseError,
> {
    if l3 + 40 > f.len() || f[l3] / 16 != 6 {
        Err(ParseError::Malformed)
    } else {
        match unwrap_headers(
            f,
            Unwrapped { ip_proto: f[l3 + 6], offset: l3 + 40, is_fragment: false },
            MAX_IPV6_EXT_HEADERS as nat,
        ) {
            Err(e) => Err(e),
            Ok(at) => if at.ip_proto != IP_PROTO_TCP && at.ip_proto != IP_PROTO_UDP && at.ip_proto
                != IP_PROTO_ICMPV6 {
                Err(ParseError::Unsupported)
            } else {
                match l4_header(f, at.offset, at.ip_proto) {
                    Err(e) => Err(e),
                    Ok(h) => Ok(
                        PacketView {
                            src_addr: f.subrange(l3 + 8, l3 + 24),
                            dst_addr: f.subrange(l3 + 24, l3 + 40),
                            src_port: h.src_port,
                            dst_port: h.dst_port,
                            family: AF_INET6,
                            ip_proto: at.ip_proto,
                            len: packet_len,
                            tcp_flags: h.tcp_flags,
                            is_fragment: at.is_fragment,
                            payload_offset: at.offset + h.len,
                            l3_offset: data + l3,
                            l4_offset: data + at.offset,
                            vlan_depth: 0,
                            vlan: padded(Seq::empty()),
                        },
                    ),
                }
            },
        }
    }
}

/// The packet in the frame `f`, which starts at address `data`.
pub open spec fn frame_packet(f: Seq<u8>, data: int) -> Result<PacketView, ParseError> {
    if f.len() < ETH_HDR_LEN {
        Err(ParseError::Malformed)
    } else {
        match untag(f, ETH_HDR_LEN as int, be16_at(f, ETH_TYPE_OFFSET as int), Seq::empty()) {
            Err(e) => Err(e),
            Ok(u) => {
                let inner = if u.eth_proto == ETH_P_IP {
                    ipv4_packet(f, data, u.offset, f.len() as int)
                } else if u.eth_proto == ETH_P_IPV6 {
                    ipv6_packet(f, data, u.offset, f.len() as int)
                } else {
                    Err(ParseError::Unsupported)
                };
                match inner {
                    Err(e) => Err(e),
                    Ok(p) => Ok(
                        PacketView { vlan_depth: u.tags.len() as int, vlan: padded(u.tags), ..p },
                    ),
                }
            },
        }
    }
}

/// The packet in the bytes from `data` to `data_end` of `mem`.
pub open spec fn packet_in(mem: Seq<u8>, data: int, data_end: int) -> Result<
    PacketView,
    ParseError,
> {
    if data_end < data {
        Err(ParseError::Malformed)
    } else {
        frame_packet(mem.subrange(data, data_end), data)
    }
}

impl Default for VlanTag {
    fn default() -> (r: Self)
        ensures
            r == no_tag(),
    {
        VlanTag { id: 0, pcp: 0, dei: false }
    }
}

/// The big-endian number at `off` of the frame.
pub fn read_u16_be(f: &[u8], off: usize) -> (r: Result<u16, ParseError>)
    ensures
        r == if off + 2 > f@.len() {
            Err::<u16, ParseError>(ParseError::Malformed)
        } else {
            Ok(be16_at(f@, off as int))
        },
{
    if f.len() < 2 || off > f.len() - 2 {
        return Err(ParseError::Malformed);
    }
    Ok(read_be16(f, off))
}

/// The tags of a frame and what lies behind them.
#[derive(Clone, Copy, Debug)]
pub struct VlanStack {
    pub offset: usize,
    pub eth_proto: u16,
    pub vlan: [VlanTag; 2],
    pub vlan_depth: u8,
}

impl VlanStack {
    /// The stack holds what `u` says.
    pub open spec fn holds(self, u: Untagged) -> bool {
        &&& self.offset == u.offset
        &&& self.eth_proto == u.eth_proto
        &&& self.vlan_depth == u.tags.len()
        &&& self.vlan@ == padded(u.tags)
    }
}

/// Reads the VLAN tags of a frame whose first type field is `eth_proto` and
/// whose bytes behind it start at `offset`.
pub fn parse_vlan(f: &[u8], offset: usize, eth_proto: u16) -> (r: Result<VlanStack, ParseError>)
    ensures
        match (r, untag(f@, offset as int, eth_proto, Seq::empty())) {
            (Ok(s), Ok(u)) => s.holds(u),
            (Err(e), Err(d)) => e == d,
            _ => false,
        },
{
    let n: usize = f.len();
    let mut s = VlanStack {
        offset,
        eth_proto,
        vlan: [VlanTag { id: 0, pcp: 0, dei: false }, VlanTag { id: 0, pcp: 0, dei: false }],
        vlan_depth: 0,
    };
    let ghost mut tags: Seq<VlanTag> = Seq::empty();
    assert(s.vlan@ =~= padded(tags));
    while (s.vlan_depth as usize) < MAX_VLAN_DEPTH
        invariant
            n == f@.len(),
            s.vlan_depth == tags.len(),
            tags.len() <= 2,
            s.vlan@ == padded(tags),
            untag(f@, offset as int, eth_proto, Seq::empty()) == untag(
                f@,
                s.offset as int,
                s.eth_proto,
                tags,
            ),
        ensures
            s.vlan_depth == tags.len(),
            s.vlan@ == padded(tags),
            untag(f@, offset as int, eth_proto, Seq::empty()) == Ok::<Untagged, ParseError>(
                Untagged { offset: s.offset as int, eth_proto: s.eth_proto, tags },
            ),
        decreases 2 - s.vlan_depth,
    {
        if s.eth_proto != ETH_P_8021Q && s.eth_proto != ETH_P_8021AD {
            break ;
        }
        if n < VLAN_HDR_LEN || s.offset > n - VLAN_HDR_LEN {
            return Err(ParseError::Malformed);
        }
        let tci: u16 = read_be16(f, s.offset);
        let next: u16 = read_be16(f, s.offset + 2);
        let idx: usize = s.vlan_depth as usize;
        let tag = VlanTag {
            id: tci % 4096,
            pcp: (tci / 8192) as u8,
            dei: tci / 4096 % 2 == 1,
        };
        s.vlan[idx] = tag;
        s.vlan_depth = s.vlan_depth + 1;
        s.offset = s.offset + VLAN_HDR_LEN;
        s.eth_proto = next;
        proof {
            assert(tag == tag_of(tci));
            assert(s.vlan@ =~= padded(tags.push(tag)));
            tags = tags.push(tag);
        }
    }
    Ok(s)
}

/// The number of bytes from `data` to `data_end`.
pub fn packet_len(data: usize, data_end: usize) -> (r: Result<u64, ParseError>)
    ensures
        match r {
            Ok(n) => data <= data_end && n == data_end - data,
            Err(e) => data_end < data && e == ParseError::Malformed,
        },
{
    if data_end < data {
        return Err(ParseError::Malformed);
    }
    Ok((data_end - data) as u64)
}

/// The transport header at `off` of protocol `proto`.
pub fn parse_l4(f: &[u8], off: usize, proto: u8) -> (r: Result<L4Header, ParseError>)
    ensures
        r == l4_header(f@, off as int, proto),
{
    let n: usize = f.len();
    if proto == IP_PROTO_TCP {
        if n < 20 || off > n - 20 {
            return Err(ParseError::Malformed);
        }
        let src_port: u16 = read_be16(f, off);
        let dst_port: u16 = read_be16(f, off + 2);
        let doff: u8 = f[off + 12] / 16;
        if doff < 5 {
            return Err(ParseError::Malformed);
        }
        let tcp_len: usize = 4 * (doff as usize);
        if n < tcp_len || off > n - tcp_len {
            return Err(ParseError::Malformed);
        }
        let tcp_flags: u8 = f[off + 13];
        return Ok(L4Header { src_port, dst_port, tcp_flags, len: tcp_len });
    }
    if n < 8 || off > n - 8 {
        return Err(ParseError::Malformed);
    }
    if proto == IP_PROTO_UDP {
        let src_port: u16 = read_be16(f, off);
        let dst_port: u16 = read_be16(f, off + 2);
        return Ok(L4Header { src_port, dst_port, tcp_flags: 0, len: 8 });
    }
    Ok(L4Header { src_port: 0, dst_port: 0, tcp_flags: 0, len: 8 })
}

/// Parses the IPv4 packet at offset `l3` of a frame that starts at address
/// `data`.
pub fn parse_ipv4(f: &[u8], data: usize, l3: usize, packet_len: u64) -> (r: Result<
    Packet,
    ParseError,
>)
    requires
        data + f@.len() <= usize::MAX,
    ensures
        outcome(r) == ipv4_packet(f@, data as int, l3 as int, packet_len as int),
{
    let n: usize = f.len();
    if n < 20 || l3 > n - 20 {
        return Err(ParseError::Malformed);
    }
    let version_ihl: u8 = f[l3];
    if version_ihl / 16 != 4 {
        return Err(ParseError::Malformed);
    }
    let ihl: usize = 4 * ((version_ihl % 16) as usize);
    if ihl < 20 || n < ihl || l3 > n - ihl {
        return Err(ParseError::Malformed);
    }
    let frag: u16 = read_be16(f, l3 + 6);
    let is_fragment = frag / 8192 % 2 == 1 || frag % 8192 != 0;
    let ip_proto: u8 = f[l3 + 9];
    if ip_proto != IP_PROTO_TCP && ip_proto != IP_PROTO_UDP && ip_proto != IP_PROTO_ICMP {
        return Err(ParseError::Unsupported);
    }
    let src_addr = read_addr4(f, l3 + 12);
    let dst_addr = read_addr4(f, l3 + 16);
    let l4_off: usize = l3 + ihl;
    let header = match parse_l4(f, l4_off, ip_proto) {
        Ok(h) => h,
        Err(e) => {
            return Err(e);
        },
    };
    let vlan = [VlanTag { id: 0, pcp: 0, dei: false }, VlanTag { id: 0, pcp: 0, dei: false }];
    assert(vlan@ =~= padded(Seq::empty()));
    let packet = Packet {
        flow: FlowKey {
            src_addr,
            dst_addr,
            src_port: header.src_port,
            dst_port: header.dst_port,
            family: AF_INET,
            ip_proto,
        },
        len: packet_len,
        tcp_flags: header.tcp_flags,
        is_fragment,
        payload_offset: l4_off + header.len,
        l3_offset: data + l3,
        l4_offset: data + l4_off,
        vlan_depth: 0,
        vlan,
    };
    Ok(packet)
}

/// The four bytes at `at` behind twelve zero bytes.
fn read_addr4(f: &[u8], at: usize) -> (r: [u8; 16])
    requires
        at + 4 <= f@.len(),
    ensures
        r@ == widened(f@.subrange(at as int, at + 4)),
{
    let n: usize = f.len();
    assert(at + 4 <= n);
    let r = [0, 0, 0, 0, 0, 0, 0, 0, 0, 0, 0, 0, f[at], f[at + 1], f[at + 2], f[at + 3]];
    assert(r@ =~= widened(f@.subrange(at as int, at + 4)));
    r
}

/// The sixteen bytes at `at`.
pub fn read_addr16(f: &[u8], at: usize) -> (r: [u8; 16])
    requires
        at + 16 <= f@.len(),
    ensures
        r@ == f@.subrange(at as int, at + 16),
{
    let n: usize = f.len();
    let mut a = [0u8; 16];
    let mut i: usize = 0;
    while i < 16
        invariant
            i <= 16,
            at + 16 <= f@.len(),
            n == f@.len(),
            forall|j: int| 0 <= j < i ==> a@[j] == f@[at + j],
        decreases 16 - i,
    {
        a[i] = f[at + i];
        i += 1;
    }
    assert(a@ =~= f@.subrange(at as int, at + 16));
    a
}

/// What follows the extension headers of an IPv6 packet.
#[derive(Clone, Copy, Debug)]
pub struct Extensions {
    pub ip_proto: u8,
    pub offset: usize,
    pub is_fragment: bool,
}

impl View for Extensions {
    type V = Unwrapped;

    open spec fn view(&self) -> Unwrapped {
        Unwrapped {
            ip_proto: self.ip_proto,
            offset: self.offset as int,
            is_fragment: self.is_fragment,
        }
    }
}

/// Steps over the extension headers that start at `offset`, the first of type
/// `ip_proto`.
pub fn skip_extension_headers(f: &[u8], ip_proto: u8, offset: usize) -> (r: Result<
    Extensions,
    ParseError,
>)
    requires
        offset <= f@.len(),
    ensures
        match (
            r,
            unwrap_headers(
                f@,
                Unwrapped { ip_proto, offset: offset as int, is_fragment: false },
                MAX_IPV6_EXT_HEADERS as nat,
            ),
        ) {
            (Ok(e), Ok(u)) => e@ == u && e.offset <= f@.len(),
            (Err(e), Err(d)) => e == d,
            _ => false,
        },
{
    let n: usize = f.len();
    let mut at = Extensions { ip_proto, offset, is_fragment: false };
    let ghost start = at@;
    let mut seen: usize = 0;
    while seen < MAX_IPV6_EXT_HEADERS
        invariant
            seen <= MAX_IPV6_EXT_HEADERS,
            n == f@.len(),
            at.offset <= n,
            start == (Unwrapped { ip_proto, offset: offset as int, is_fragment: false }),
            unwrap_headers(f@, start, MAX_IPV6_EXT_HEADERS as nat) == unwrap_headers(
                f@,
                at@,
                (MAX_IPV6_EXT_HEADERS - seen) as nat,
            ),
        ensures
            at.offset <= n,
            unwrap_headers(f@, start, MAX_IPV6_EXT_HEADERS as nat) == Ok::<Unwrapped, ParseError>(
                at@,
            ),
        decreases MAX_IPV6_EXT_HEADERS - seen,
    {
        if at.ip_proto == IP_PROTO_HOPOPTS || at.ip_proto == IP_PROTO_ROUTING || at.ip_proto
            == IP_PROTO_DSTOPTS {
            if n < 2 || at.offset > n - 2 {
                return Err(ParseError::Malformed);
            }
            let ext_len: usize = 8 * (f[at.offset + 1] as usize + 1);
            if n < ext_len || at.offset > n - ext_len {
                return Err(ParseError::Malformed);
            }
            at = Extensions {
                ip_proto: f[at.offset],
                offset: at.offset + ext_len,
                is_fragment: at.is_fragment,
            };
        } else if at.ip_proto == IP_PROTO_FRAGMENT {
            if n < 8 || at.offset > n - 8 {
                return Err(ParseError::Malformed);
            }
            at = Extensions { ip_proto: f[at.offset], offset: at.offset + 8, is_fragment: true };
        } else {
            break ;
        }
        seen += 1;
    }
    Ok(at)
}

/// Parses the IPv6 packet at offset `l3` of a frame that starts at address
/// `data`.
pub fn parse_ipv6(f: &[u8], data: usize, l3: usize, packet_len: u64) -> (r: Result<
    Packet,
    ParseError,
>)
    requires
        data + f@.len() <= usize::MAX,
    ensures
        outcome(r) == ipv6_packet(f@, data as int, l3 as int, packet_len as int),
{
    let n: usize = f.len();
    if n < 40 || l3 > n - 40 {
        return Err(ParseError::Malformed);
    }
    if f[l3] / 16 != 6 {
        return Err(ParseError::Malformed);
    }
    let src_addr = read_addr16(f, l3 + 8);
    let dst_addr = read_addr16(f, l3 + 24);
    let ext = match skip_extension_headers(f, f[l3 + 6], l3 + 40) {
        Ok(e) => e,
        Err(e) => {
            return Err(e);
        },
    };
    let ip_proto: u8 = ext.ip_proto;
    let l4_off: usize = ext.offset;
    let is_fragment: bool = ext.is_fragment;
    if ip_proto != IP_PROTO_TCP && ip_proto != IP_PROTO_UDP && ip_proto != IP_PROTO_ICMPV6 {
        return Err(ParseError::Unsupported);
    }
    let header = match parse_l4(f, l4_off, ip_proto) {
        Ok(h) => h,
        Err(e) => {
            return Err(e);
        },
    };
    let vlan = [VlanTag { id: 0, pcp: 0, dei: false }, VlanTag { id: 0, pcp: 0, dei: false }];
    assert(vlan@ =~= padded(Seq::empty()));
    let packet = Packet {
        flow: FlowKey {
            src_addr,
            dst_addr,
            src_port: header.src_port,
            dst_port: header.dst_port,
            family: AF_INET6,
            ip_proto,
        },
        len: packet_len,
        tcp_flags: header.tcp_flags,
        is_fragment,
        payload_offset: l4_off + header.len,
        l3_offset: data + l3,
        l4_offset: data + l4_off,
        vlan_depth: 0,
        vlan,
    };
    Ok(packet)
}

/// Parses the packet in the bytes from `data` to `data_end` of `mem`.
pub fn parse_packet(mem: &[u8], data: usize, data_end: usize) -> (r: Result<Packet, ParseError>)
    requires
        data_end <= mem@.len(),
    ensures
        outcome(r) == packet_in(mem@, data as int, data_end as int),
{
    let len: u64 = match packet_len(data, data_end) {
        Ok(n) => n,
        Err(e) => {
            return Err(e);
        },
    };
    let whole: usize = mem.len();
    let f = vstd::slice::slice_subrange(mem, data, data_end);
    let n: usize = f.len();
    if n < ETH_HDR_LEN {
        return Err(ParseError::Malformed);
    }
    let eth_proto: u16 = read_be16(f, ETH_TYPE_OFFSET);
    let stack = match parse_vlan(f, ETH_HDR_LEN, eth_proto) {
        Ok(s) => s,
        Err(e) => {
            return Err(e);
        },
    };
    let parsed = if stack.eth_proto == ETH_P_IP {
        parse_ipv4(f, data, stack.offset, len)
    } else if stack.eth_proto == ETH_P_IPV6 {
        parse_ipv6(f, data, stack.offset, len)
    } else {
        Err(ParseError::Unsupported)
    };
    match parsed {
        Ok(mut packet) => {
            packet.vlan_depth = stack.vlan_depth;
            packet.vlan = stack.vlan;
            Ok(packet)
        },
        Err(e) => Err(e),
    }
}

proof fn lemma_untag(f: Seq<u8>, offset: int, eth_proto: u16, tags: Seq<VlanTag>)
    requires
        0 <= offset,
        tags.len() <= 2,
        forall|i: int| 0 <= i < tags.len() ==> #[trigger] tags[i].id < 4096 && tags[i].pcp < 8,
    ensures
        untag(f, offset, eth_proto, tags) matches Ok(u) ==> {
            &&& offset <= u.offset
            &&& u.tags.len() <= 2
            &&& forall|i: int|
                0 <= i < u.tags.len() ==> #[trigger] u.tags[i].id < 4096 && u.tags[i].pcp < 8
        },
    decreases 2 - tags.len(),
{
    if tags.len() < 2 && (eth_proto == ETH_P_8021Q || eth_proto == ETH_P_8021AD) && offset + 4
        <= f.len() {
        let tags2 = tags.push(tag_of(be16_at(f, offset)));
        assert forall|i: int| 0 <= i < tags2.len() implies #[trigger] tags2[i].id < 4096
            && tags2[i].pcp < 8 by {
            if i < tags.len() {
                assert(tags2[i] == tags[i]);
            }
        }
        lemma_untag(f, offset + 4, be16_at(f, offset + 2), tags2);
    }
}

proof fn lemma_unwrap_headers(f: Seq<u8>, at: Unwrapped, budget: nat)
    requires
        0 <= at.offset <= f.len(),
    ensures
        unwrap_headers(f, at, budget) matches Ok(u) ==> at.offset <= u.offset <= f.len(),
    decreases budget,
{
    if budget > 0 {
        let off = at.offset;
        if at.ip_proto == IP_PROTO_HOPOPTS || at.ip_proto == IP_PROTO_ROUTING || at.ip_proto
            == IP_PROTO_DSTOPTS {
            if off + 2 <= f.len() && off + 8 * (f[off + 1] + 1) <= f.len() {
                lemma_unwrap_headers(
                    f,
                    Unwrapped {
                        ip_proto: f[off],
                        offset: off + 8 * (f[off + 1] + 1),
                        is_fragment: at.is_fragment,
                    },
                    (budget - 1) as nat,
                );
            }
        } else if at.ip_proto == IP_PROTO_FRAGMENT && off + 8 <= f.len() {
            lemma_unwrap_headers(
                f,
                Unwrapped { ip_proto: f[off], offset: off + 8, is_fragment: true },
                (budget - 1) as nat,
            );
        }
    }
}

/// Every packet taken from a frame lies within it: its headers start behind
/// the Ethernet header, in order, and its payload starts no later than the
/// frame ends.
pub proof fn packet_lies_in_frame(f: Seq<u8>, data: int)
    ensures
        frame_packet(f, data) matches Ok(p) ==> {
            &&& data + 14 <= p.l3_offset < p.l4_offset
            &&& p.l4_offset < data + p.payload_offset <= data + f.len()
            &&& p.len == f.len()
        },
{
    lemma_untag(f, ETH_HDR_LEN as int, be16_at(f, ETH_TYPE_OFFSET as int), Seq::empty());
    if let Ok(u) = untag(f, ETH_HDR_LEN as int, be16_at(f, ETH_TYPE_OFFSET as int), Seq::empty()) {
        if u.eth_proto == ETH_P_IPV6 && u.offset + 40 <= f.len() {
            lemma_unwrap_headers(
                f,
                Unwrapped { ip_proto: f[u.offset + 6], offset: u.offset + 40, is_fragment: false },
                MAX_IPV6_EXT_HEADERS as nat,
            );
        }
    }
}

/// A packet has at most two VLAN tags, with 12-bit identifiers and 3-bit
/// priorities, a supported protocol, and addresses of 16 bytes.
pub proof fn packet_fields_in_range(f: Seq<u8>, data: int)
    ensures
        frame_packet(f, data) matches Ok(p) ==> {
            &&& 0 <= p.vlan_depth <= 2
            &&& p.vlan.len() == 2
            &&& forall|i: int| 0 <= i < 2 ==> #[trigger] p.vlan[i].id < 4096 && p.vlan[i].pcp < 8
            &&& p.src_addr.len() == 16 && p.dst_addr.len() == 16
            &&& p.family == AF_INET || p.family == AF_INET6
            &&& p.ip_proto == IP_PROTO_TCP || p.ip_proto == IP_PROTO_UDP || p.ip_proto
                == if p.family == AF_INET {
                IP_PROTO_ICMP
            } else {
                IP_PROTO_ICMPV6
            }
        },
{
    lemma_untag(f, ETH_HDR_LEN as int, be16_at(f, ETH_TYPE_OFFSET as int), Seq::empty());
    if let Ok(u) = untag(f, ETH_HDR_LEN as int, be16_at(f, ETH_TYPE_OFFSET as int), Seq::empty()) {
        assert forall|i: int| 0 <= i < 2 implies #[trigger] padded(u.tags)[i].id < 4096 && padded(
            u.tags,
        )[i].pcp < 8 by {
            if i < u.tags.len() {
                assert(padded(u.tags)[i] == u.tags[i]);
            }
        }
    }
}

} // verus!
