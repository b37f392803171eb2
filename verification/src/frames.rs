//! Frames laid out byte by byte, and what must be read from them.
use vstd::prelude::*;

use crate::maps::{ParseError, VlanTag};
use crate::packet::{
    be16_at, frame_packet, ipv4_packet, ipv6_packet, l4_header, packet_in, tag_of, untag,
    unwrap_headers, PacketView, Untagged, Unwrapped,
};

verus! {

/// A number in network order.
pub open spec fn net16(n: u16) -> Seq<u8> {
    seq![(n / 256) as u8, (n % 256) as u8]
}

/// A VLAN tag on the wire: its type, then three bits of priority, one that
/// marks it as the first to be dropped, and twelve of its number.
pub open spec fn net_tag(kind: u16, tag: VlanTag) -> Seq<u8> {
    let dei = if tag.dei {
        4096int
    } else {
        0
    };
    net16(kind) + net16((8192 * tag.pcp + dei + tag.id) as u16)
}

/// The tags of a frame, the outer one first.
pub open spec fn net_tags(tags: Seq<(u16, VlanTag)>) -> Seq<u8> {
    if tags.len() == 0 {
        Seq::empty()
    } else if tags.len() == 1 {
        net_tag(tags[0].0, tags[0].1)
    } else {
        net_tag(tags[0].0, tags[0].1) + net_tag(tags[1].0, tags[1].1)
    }
}

/// At most two tags, each of one of the two types and with fields that fit.
pub open spec fn tags_fit(tags: Seq<(u16, VlanTag)>) -> bool {
    &&& tags.len() <= 2
    &&& forall|i: int|
        0 <= i < tags.len() ==> {
            &&& (#[trigger] tags[i]).0 == 0x8100 || tags[i].0 == 0x88a8
            &&& tags[i].1.id < 4096
            &&& tags[i].1.pcp < 8
        }
}

/// An Ethernet frame: two addresses, tags, the type of what it carries, and
/// that.
#[verifier::opaque]
pub open spec fn ethernet(
    macs: Seq<u8>,
    tags: Seq<(u16, VlanTag)>,
    kind: u16,
    inner: Seq<u8>,
) -> Seq<u8> {
    macs + net_tags(tags) + net16(kind) + inner
}

/// A transport header and what follows it.
pub struct Segment {
    pub proto: u8,
    pub src_port: u16,
    pub dst_port: u16,
    pub flags: u8,
    /// Bytes of the header that are not looked at.
    pub rest: Seq<u8>,
    /// TCP options.
    pub options: Seq<u8>,
    pub data: Seq<u8>,
}

impl Segment {
    /// The lengths are those of a header of the protocol.
    pub open spec fn fits(self) -> bool {
        if self.proto == 6 {
            self.rest.len() == 14 && self.options.len() % 4 == 0 && self.options.len() <= 40
        } else if self.proto == 17 {
            self.rest.len() == 4
        } else {
            self.rest.len() == 8
        }
    }

    #[verifier::opaque]
    pub open spec fn bytes(self) -> Seq<u8> {
        if self.proto == 6 {
            net16(self.src_port) + net16(self.dst_port) + self.rest.take(8) + seq![
                (16 * (5 + self.options.len() / 4)) as u8,
                self.flags,
            ] + self.rest.skip(8) + self.options + self.data
        } else if self.proto == 17 {
            net16(self.src_port) + net16(self.dst_port) + self.rest + self.data
        } else {
            self.rest + self.data
        }
    }

    /// The length of the header.
    pub open spec fn header_len(self) -> int {
        if self.proto == 6 {
            20 + self.options.len() as int
        } else {
            8
        }
    }
}

/// An IPv4 header.
pub struct Header4 {
    pub src: Seq<u8>,
    pub dst: Seq<u8>,
    /// The do-not-fragment bit, the more-fragments bit, and the offset.
    pub keep: bool,
    pub more: bool,
    pub offset: u16,
    pub rest: Seq<u8>,
    pub options: Seq<u8>,
}

impl Header4 {
    pub open spec fn fits(self) -> bool {
        &&& self.src.len() == 4 && self.dst.len() == 4
        &&& self.offset < 8192
        &&& self.rest.len() == 8
        &&& self.options.len() % 4 == 0 && self.options.len() <= 40
    }

    #[verifier::opaque]
    pub open spec fn bytes(self, proto: u8) -> Seq<u8> {
        let bits = (if self.keep {
            16384int
        } else {
            0
        }) + if self.more {
            8192int
        } else {
            0
        };
        seq![(64 + 5 + self.options.len() / 4) as u8] + self.rest.take(5) + net16(
            (bits + self.offset) as u16,
        ) + seq![self.rest[5], proto] + self.rest.skip(6) + self.src + self.dst + self.options
    }
}

proof fn lemma_net16(f: Seq<u8>, at: int, n: u16)
    requires
        0 <= at,
        at + 2 <= f.len(),
        f[at] == (n / 256) as u8,
        f[at + 1] == (n % 256) as u8,
    ensures
        be16_at(f, at) == n,
{
    assert(f.skip(at)[0] == f[at] && f.skip(at)[1] == f[at + 1]);
}

proof fn lemma_tag(tag: VlanTag)
    requires
        tag.id < 4096,
        tag.pcp < 8,
    ensures
        ({
            let dei = if tag.dei {
                4096int
            } else {
                0
            };
            tag_of((8192 * tag.pcp + dei + tag.id) as u16) == tag
        }),
{
}

/// The tags of a frame are read back, and behind them its type.
pub proof fn lemma_tags(macs: Seq<u8>, tags: Seq<(u16, VlanTag)>, kind: u16, inner: Seq<u8>)
    requires
        macs.len() == 12,
        tags_fit(tags),
        tags.len() == 2 || (kind != 0x8100 && kind != 0x88a8),
    ensures
        ({
            let f = ethernet(macs, tags, kind, inner);
            &&& f.len() == 14 + 4 * tags.len() + inner.len()
            &&& forall|i: int|
                0 <= i < inner.len() ==> #[trigger] inner[i] == f[14 + 4 * tags.len() + i]
            &&& untag(f, 14, be16_at(f, 12), Seq::empty()) == Ok::<Untagged, ParseError>(
                Untagged {
                    offset: 14 + 4 * tags.len() as int,
                    eth_proto: kind,
                    tags: Seq::new(tags.len(), |i: int| tags[i].1),
                },
            )
        }),
{
    reveal(ethernet);
    let f = ethernet(macs, tags, kind, inner);
    let found = Seq::new(tags.len(), |i: int| tags[i].1);
    reveal_with_fuel(untag, 4);
    if tags.len() == 0 {
        lemma_net16(f, 12, kind);
        assert(found =~= Seq::empty());
    } else if tags.len() == 1 {
        let t = tags[0];
        let dei = if t.1.dei {
            4096int
        } else {
            0
        };
        lemma_net16(f, 12, t.0);
        lemma_net16(f, 14, (8192 * t.1.pcp + dei + t.1.id) as u16);
        lemma_net16(f, 16, kind);
        lemma_tag(t.1);
        assert(found =~= Seq::<VlanTag>::empty().push(t.1));
    } else {
        let t = tags[0];
        let u = tags[1];
        let dt = if t.1.dei {
            4096int
        } else {
            0
        };
        let du = if u.1.dei {
            4096int
        } else {
            0
        };
        lemma_net16(f, 12, t.0);
        lemma_net16(f, 14, (8192 * t.1.pcp + dt + t.1.id) as u16);
        lemma_net16(f, 16, u.0);
        lemma_net16(f, 18, (8192 * u.1.pcp + du + u.1.id) as u16);
        lemma_net16(f, 20, kind);
        lemma_tag(t.1);
        lemma_tag(u.1);
        assert(found =~= Seq::<VlanTag>::empty().push(t.1).push(u.1));
    }
}

/// The ports and flags of a transport header are read back, and its length.
proof fn lemma_segment(f: Seq<u8>, at: int, s: Segment)
    requires
        0 <= at,
        s.fits(),
        f.len() == at + s.bytes().len(),
        forall|i: int| 0 <= i < s.bytes().len() ==> #[trigger] s.bytes()[i] == f[at + i],
    ensures
        l4_header(f, at, s.proto) matches Ok(h) && h.len == s.header_len() && h.tcp_flags == (
        if s.proto == 6 {
            s.flags
        } else {
            0
        }) && (s.proto == 6 || s.proto == 17 ==> h.src_port == s.src_port && h.dst_port
            == s.dst_port) && (s.proto != 6 && s.proto != 17 ==> h.src_port == 0 && h.dst_port
            == 0),
{
    reveal(Segment::bytes);
    let b = s.bytes();
    assert(b[0] == f[at + 0]);
    assert(b[1] == f[at + 1]);
    assert(b[2] == f[at + 2]);
    assert(b[3] == f[at + 3]);
    if s.proto == 6 {
        assert(b[12] == f[at + 12]);
        assert(b[13] == f[at + 13]);
        assert(b.len() >= 20 + s.options.len());
        lemma_net16(f, at, s.src_port);
        lemma_net16(f, at + 2, s.dst_port);
    } else if s.proto == 17 {
        lemma_net16(f, at, s.src_port);
        lemma_net16(f, at + 2, s.dst_port);
    }
}

/// What is read of a frame that carries the segment: its addresses, ports,
/// protocol and flags, its tags, its length, and where its parts start.
pub open spec fn reads_back(
    p: PacketView,
    tags: Seq<(u16, VlanTag)>,
    s: Segment,
    start: int,
    l4: int,
    len: int,
) -> bool {
    &&& p.ip_proto == s.proto
    &&& s.proto == 6 || s.proto == 17 ==> p.src_port == s.src_port && p.dst_port == s.dst_port
    &&& s.proto != 6 && s.proto != 17 ==> p.src_port == 0 && p.dst_port == 0
    &&& s.proto == 6 ==> p.tcp_flags == s.flags
    &&& s.proto != 6 ==> p.tcp_flags == 0
    &&& p.vlan_depth == tags.len()
    &&& p.vlan.len() == 2
    &&& forall|i: int| 0 <= i < tags.len() ==> #[trigger] p.vlan[i] == tags[i].1
    &&& forall|i: int| tags.len() <= i < 2 ==> (#[trigger] p.vlan[i]).id == 0
    &&& p.len == len
    &&& p.l3_offset == start + 14 + 4 * tags.len()
    &&& p.l4_offset == start + l4
    &&& p.payload_offset == l4 + s.header_len()
}

pub proof fn lemma_header4(h: Header4, proto: u8)
    requires
        h.fits(),
    ensures
        ({
            let b = h.bytes(proto);
            &&& b.len() == 20 + h.options.len()
            &&& b[0] == (69 + h.options.len() / 4) as u8
            &&& b[9] == proto
            &&& forall|i: int| 0 <= i < 4 ==> #[trigger] h.src[i] == b[12 + i]
            &&& forall|i: int| 0 <= i < 4 ==> #[trigger] h.dst[i] == b[16 + i]
            &&& be16_at(b, 6) / 8192 % 2 == 1 <==> h.more
            &&& be16_at(b, 6) % 8192 == h.offset
        }),
{
    reveal(Header4::bytes);
    let b = h.bytes(proto);
    let bits = (if h.keep {
        16384int
    } else {
        0
    }) + if h.more {
        8192int
    } else {
        0
    };
    lemma_net16(b, 6, (bits + h.offset) as u16);
}

proof fn lemma_ipv4_at(f: Seq<u8>, data: int, l3: int, h: Header4, s: Segment)
    requires
        0 <= l3,
        h.fits(),
        s.proto == 6 || s.proto == 17 || s.proto == 1,
        l3 + 20 + h.options.len() <= f.len(),
        forall|i: int|
            0 <= i < 20 + h.options.len() ==> #[trigger] h.bytes(s.proto)[i] == f[l3 + i],
        l4_header(f, l3 + 20 + h.options.len(), s.proto) is Ok,
    ensures
        ipv4_packet(f, data, l3, f.len() as int) matches Ok(p) && {
            let k = l4_header(f, l3 + 20 + h.options.len(), s.proto)->Ok_0;
            &&& p.src_addr == seq![0u8, 0, 0, 0, 0, 0, 0, 0, 0, 0, 0, 0] + h.src
            &&& p.dst_addr == seq![0u8, 0, 0, 0, 0, 0, 0, 0, 0, 0, 0, 0] + h.dst
            &&& p.family == 4
            &&& p.is_fragment == (h.more || h.offset != 0)
            &&& p.ip_proto == s.proto
            &&& p.src_port == k.src_port && p.dst_port == k.dst_port && p.tcp_flags == k.tcp_flags
            &&& p.len == f.len()
            &&& p.l3_offset == data + l3
            &&& p.l4_offset == data + l3 + 20 + h.options.len()
            &&& p.payload_offset == l3 + 20 + h.options.len() + k.len
        },
{
    lemma_header4(h, s.proto);
    let b = h.bytes(s.proto);
    assert(b[0] == f[l3 + 0]);
    assert(b[6] == f[l3 + 6]);
    assert(b[7] == f[l3 + 7]);
    assert(b[9] == f[l3 + 9]);
    assert(be16_at(f, l3 + 6) == be16_at(b, 6)) by {
        assert(f.skip(l3 + 6)[0] == b.skip(6)[0] && f.skip(l3 + 6)[1] == b.skip(6)[1]);
    }
    assert forall|i: int| 0 <= i < 4 implies f[l3 + 12 + i] == h.src[i] && f[l3 + 16 + i]
        == h.dst[i] by {
        assert(b[12 + i] == f[l3 + (12 + i)]);
        assert(b[16 + i] == f[l3 + (16 + i)]);
    }
    assert(f.subrange(l3 + 12, l3 + 16) =~= h.src);
    assert(f.subrange(l3 + 16, l3 + 20) =~= h.dst);
    assert(Seq::new(12, |i: int| 0u8) =~= seq![0u8, 0, 0, 0, 0, 0, 0, 0, 0, 0, 0, 0]);
}

/// An IPv4 packet is read back from the frame that carries it, wherever the
/// frame lies in the memory: its addresses behind zeros, its ports, protocol and
/// TCP flags, its tags, whether it is a fragment, and its length.
#[verifier::spinoff_prover]
#[verifier::rlimit(40)]
pub proof fn ipv4_frame_is_read_back(
    before: Seq<u8>,
    after: Seq<u8>,
    macs: Seq<u8>,
    tags: Seq<(u16, VlanTag)>,
    h: Header4,
    s: Segment,
)
    requires
        macs.len() == 12,
        tags_fit(tags),
        h.fits(),
        s.fits(),
        s.proto == 6 || s.proto == 17 || s.proto == 1,
    ensures
        ({
            let f = ethernet(macs, tags, 0x0800, h.bytes(s.proto) + s.bytes());
            let end = (before.len() + f.len()) as int;
            packet_in(before + f + after, before.len() as int, end) matches Ok(p) && {
                &&& p.src_addr == seq![0u8, 0, 0, 0, 0, 0, 0, 0, 0, 0, 0, 0] + h.src
                &&& p.dst_addr == seq![0u8, 0, 0, 0, 0, 0, 0, 0, 0, 0, 0, 0] + h.dst
                &&& p.family == 4
                &&& p.is_fragment == (h.more || h.offset != 0)
                &&& reads_back(
                    p,
                    tags,
                    s,
                    before.len() as int,
                    34 + 4 * tags.len() as int + h.options.len(),
                    f.len() as int,
                )
            }
        }),
{
    let head = h.bytes(s.proto);
    let inner = head + s.bytes();
    let f = ethernet(macs, tags, 0x0800, inner);
    let l3 = 14 + 4 * tags.len() as int;
    let hl = 20 + h.options.len() as int;
    assert((before + f + after).subrange(before.len() as int, (before.len() + f.len()) as int)
        =~= f);
    lemma_tags(macs, tags, 0x0800, inner);
    lemma_header4(h, s.proto);
    assert forall|i: int| 0 <= i < hl implies #[trigger] head[i] == f[l3 + i] by {
        assert(inner[i] == f[l3 + i]);
    }
    assert forall|i: int| 0 <= i < s.bytes().len() implies #[trigger] s.bytes()[i] == f[l3 + hl
        + i] by {
        assert(inner[hl + i] == f[l3 + (hl + i)]);
    }
    lemma_segment(f, l3 + hl, s);
    lemma_ipv4_at(f, before.len() as int, l3, h, s);
}

/// An IPv6 extension header: its type and its contents. A fragment header has
/// eight bytes.
pub struct Extension {
    pub kind: u8,
    pub rest: Seq<u8>,
}

impl Extension {
    pub open spec fn fits(self) -> bool {
        if self.kind == 44 {
            self.rest.len() == 7
        } else {
            &&& self.kind == 0 || self.kind == 43 || self.kind == 60
            &&& self.rest.len() % 8 == 6
            &&& self.rest.len() < 2048
        }
    }

    /// The header, with the type of what follows it.
    pub open spec fn bytes(self, next: u8) -> Seq<u8> {
        if self.kind == 44 {
            seq![next] + self.rest
        } else {
            seq![next, (self.rest.len() / 8) as u8] + self.rest
        }
    }
}

/// The type of the first of the headers, or of what follows them.
pub open spec fn first_kind(exts: Seq<Extension>, proto: u8) -> u8 {
    if exts.len() == 0 {
        proto
    } else {
        exts[0].kind
    }
}

/// The extension headers of a packet, each with the type of the next.
pub open spec fn chain(exts: Seq<Extension>, proto: u8) -> Seq<u8>
    decreases exts.len(),
{
    if exts.len() == 0 {
        Seq::empty()
    } else {
        exts[0].bytes(first_kind(exts.skip(1), proto)) + chain(exts.skip(1), proto)
    }
}

pub open spec fn has_fragment(exts: Seq<Extension>) -> bool {
    exists|i: int| 0 <= i < exts.len() && (#[trigger] exts[i]).kind == 44
}

pub proof fn lemma_chain(
    f: Seq<u8>,
    at: int,
    exts: Seq<Extension>,
    proto: u8,
    fragment: bool,
    budget: nat,
)
    requires
        0 <= at,
        at + chain(exts, proto).len() <= f.len(),
        exts.len() <= budget,
        forall|i: int| 0 <= i < exts.len() ==> (#[trigger] exts[i]).fits(),
        forall|i: int|
            0 <= i < chain(exts, proto).len() ==> #[trigger] chain(exts, proto)[i] == f[at + i],
        proto != 0 && proto != 43 && proto != 44 && proto != 60 || exts.len() == budget,
    ensures
        unwrap_headers(
            f,
            Unwrapped { ip_proto: first_kind(exts, proto), offset: at, is_fragment: fragment },
            budget,
        ) == Ok::<Unwrapped, ParseError>(
            Unwrapped {
                ip_proto: proto,
                offset: at + chain(exts, proto).len(),
                is_fragment: fragment || has_fragment(exts),
            },
        ),
    decreases exts.len(),
{
    if exts.len() > 0 {
        let e = exts[0];
        let rest = exts.skip(1);
        let next = first_kind(rest, proto);
        let b = e.bytes(next);
        let c = chain(exts, proto);
        assert(e.fits());
        assert(c[0] == f[at + 0]);
        assert(c[1] == f[at + 1]);
        assert forall|i: int| 0 <= i < chain(rest, proto).len() implies #[trigger] chain(
            rest,
            proto,
        )[i] == f[at + b.len() + i] by {
            assert(c[b.len() + i] == f[at + (b.len() + i)]);
        }
        assert forall|i: int| 0 <= i < rest.len() implies (#[trigger] rest[i]).fits() by {
            assert(rest[i] == exts[i + 1]);
        }
        lemma_chain(
            f,
            at + b.len(),
            rest,
            proto,
            fragment || e.kind == 44,
            (budget - 1) as nat,
        );
        if has_fragment(exts) && e.kind != 44 {
            let i = choose|i: int| 0 <= i < exts.len() && (#[trigger] exts[i]).kind == 44;
            assert(rest[i - 1] == exts[i]);
        }
        if has_fragment(rest) {
            let i = choose|i: int| 0 <= i < rest.len() && (#[trigger] rest[i]).kind == 44;
            assert(rest[i] == exts[i + 1]);
        }
        if e.kind == 44 {
            assert(exts[0].kind == 44);
        }
    }
}

/// An IPv6 header: the version with the four bits behind it, bytes that are not
/// looked at, the first of the headers that follow, the two addresses, and the
/// extension headers.
#[verifier::opaque]
pub open spec fn net_ipv6(
    low: u8,
    rest: Seq<u8>,
    src: Seq<u8>,
    dst: Seq<u8>,
    exts: Seq<Extension>,
    proto: u8,
) -> Seq<u8> {
    seq![(96 + low) as u8] + rest.take(5) + seq![first_kind(exts, proto), rest[5]] + src + dst
        + chain(exts, proto)
}

pub proof fn lemma_ipv6(
    low: u8,
    rest: Seq<u8>,
    src: Seq<u8>,
    dst: Seq<u8>,
    exts: Seq<Extension>,
    proto: u8,
)
    requires
        low < 16,
        rest.len() == 6,
        src.len() == 16,
        dst.len() == 16,
    ensures
        ({
            let b = net_ipv6(low, rest, src, dst, exts, proto);
            &&& b.len() == 40 + chain(exts, proto).len()
            &&& b[0] / 16 == 6
            &&& b[6] == first_kind(exts, proto)
            &&& forall|i: int| 0 <= i < 16 ==> #[trigger] src[i] == b[8 + i]
            &&& forall|i: int| 0 <= i < 16 ==> #[trigger] dst[i] == b[24 + i]
            &&& forall|i: int|
                0 <= i < chain(exts, proto).len() ==> #[trigger] chain(exts, proto)[i] == b[40 + i]
        }),
{
    reveal(net_ipv6);
}

proof fn lemma_ipv6_at(
    f: Seq<u8>,
    data: int,
    l3: int,
    src: Seq<u8>,
    dst: Seq<u8>,
    exts: Seq<Extension>,
    head: Seq<u8>,
    proto: u8,
)
    requires
        0 <= l3,
        src.len() == 16,
        dst.len() == 16,
        exts.len() <= 4,
        forall|i: int| 0 <= i < exts.len() ==> (#[trigger] exts[i]).fits(),
        proto == 6 || proto == 17 || proto == 58,
        head.len() == 40 + chain(exts, proto).len(),
        head[0] / 16 == 6,
        head[6] == first_kind(exts, proto),
        forall|i: int| 0 <= i < 16 ==> #[trigger] src[i] == head[8 + i],
        forall|i: int| 0 <= i < 16 ==> #[trigger] dst[i] == head[24 + i],
        forall|i: int|
            0 <= i < chain(exts, proto).len() ==> #[trigger] chain(exts, proto)[i] == head[40 + i],
        l3 + head.len() <= f.len(),
        forall|i: int| 0 <= i < head.len() ==> #[trigger] head[i] == f[l3 + i],
        l4_header(f, l3 + head.len(), proto) is Ok,
    ensures
        ipv6_packet(f, data, l3, f.len() as int) matches Ok(p) && {
            let k = l4_header(f, l3 + head.len(), proto)->Ok_0;
            &&& p.src_addr == src
            &&& p.dst_addr == dst
            &&& p.family == 6
            &&& p.is_fragment == has_fragment(exts)
            &&& p.ip_proto == proto
            &&& p.src_port == k.src_port && p.dst_port == k.dst_port && p.tcp_flags == k.tcp_flags
            &&& p.len == f.len()
            &&& p.l3_offset == data + l3
            &&& p.l4_offset == data + l3 + head.len()
            &&& p.payload_offset == l3 + head.len() + k.len
        },
{
    let c = chain(exts, proto);
    assert forall|i: int| 0 <= i < c.len() implies #[trigger] c[i] == f[l3 + 40 + i] by {
        assert(head[40 + i] == f[l3 + (40 + i)]);
    }
    assert(head[0] == f[l3 + 0]);
    assert(head[6] == f[l3 + 6]);
    lemma_chain(f, l3 + 40, exts, proto, false, 4);
    assert forall|i: int| 0 <= i < 16 implies f[l3 + 8 + i] == src[i] && f[l3 + 24 + i]
        == dst[i] by {
        assert(head[8 + i] == f[l3 + (8 + i)]);
        assert(head[24 + i] == f[l3 + (24 + i)]);
    }
    assert(f.subrange(l3 + 8, l3 + 24) =~= src);
    assert(f.subrange(l3 + 24, l3 + 40) =~= dst);
}

/// An IPv6 packet is read back from the frame that carries it, wherever the
/// frame lies in the memory and whichever of up to four extension headers it has:
/// its source as the source and its destination as the destination, its ports,
/// protocol and TCP flags, its tags, whether it is a fragment, and its length.
#[verifier::spinoff_prover]
#[verifier::rlimit(40)]
pub proof fn ipv6_frame_is_read_back(
    before: Seq<u8>,
    after: Seq<u8>,
    macs: Seq<u8>,
    tags: Seq<(u16, VlanTag)>,
    low: u8,
    rest: Seq<u8>,
    src: Seq<u8>,
    dst: Seq<u8>,
    exts: Seq<Extension>,
    s: Segment,
)
    requires
        macs.len() == 12,
        tags_fit(tags),
        low < 16,
        rest.len() == 6,
        src.len() == 16,
        dst.len() == 16,
        exts.len() <= 4,
        forall|i: int| 0 <= i < exts.len() ==> (#[trigger] exts[i]).fits(),
        s.fits(),
        s.proto == 6 || s.proto == 17 || s.proto == 58,
    ensures
        ({
            let head = net_ipv6(low, rest, src, dst, exts, s.proto);
            let f = ethernet(macs, tags, 0x86dd, head + s.bytes());
            let end = (before.len() + f.len()) as int;
            packet_in(before + f + after, before.len() as int, end) matches Ok(p) && {
                &&& p.src_addr == src
                &&& p.dst_addr == dst
                &&& p.family == 6
                &&& p.is_fragment == has_fragment(exts)
                &&& reads_back(
                    p,
                    tags,
                    s,
                    before.len() as int,
                    54 + 4 * tags.len() as int + chain(exts, s.proto).len(),
                    f.len() as int,
                )
            }
        }),
{
    let head = net_ipv6(low, rest, src, dst, exts, s.proto);
    let inner = head + s.bytes();
    let f = ethernet(macs, tags, 0x86dd, inner);
    let l3 = 14 + 4 * tags.len() as int;
    assert((before + f + after).subrange(before.len() as int, (before.len() + f.len()) as int)
        =~= f);
    lemma_tags(macs, tags, 0x86dd, inner);
    lemma_ipv6(low, rest, src, dst, exts, s.proto);
    assert forall|i: int| 0 <= i < head.len() implies #[trigger] head[i] == f[l3 + i] by {
        assert(inner[i] == f[l3 + i]);
    }
    assert forall|i: int| 0 <= i < s.bytes().len() implies #[trigger] s.bytes()[i] == f[l3
        + head.len() + i] by {
        assert(inner[head.len() + i] == f[l3 + (head.len() + i)]);
    }
    lemma_segment(f, l3 + head.len(), s);
    lemma_ipv6_at(f, before.len() as int, l3, src, dst, exts, head, s.proto);
}

/// A frame of another type than IPv4 and IPv6 is not supported, nor is one with
/// a third tag.
pub proof fn other_frames_are_unsupported(
    macs: Seq<u8>,
    tags: Seq<(u16, VlanTag)>,
    kind: u16,
    inner: Seq<u8>,
    start: int,
)
    requires
        macs.len() == 12,
        tags_fit(tags),
        kind != 0x0800 && kind != 0x86dd,
        tags.len() == 2 || (kind != 0x8100 && kind != 0x88a8),
    ensures
        frame_packet(ethernet(macs, tags, kind, inner), start) == Err::<PacketView, ParseError>(
            ParseError::Unsupported,
        ),
{
    lemma_tags(macs, tags, kind, inner);
}

} // verus!
