//! What a frame must hold for a packet to be read from it.
use vstd::prelude::*;

use crate::conduct::blank;
use crate::frames::{
    chain, ethernet, lemma_chain, lemma_header4, lemma_ipv6, lemma_tags, net_ipv6, tags_fit,
    Extension, Header4,
};
use crate::maps::{ParseError, VlanTag};
use crate::packet::{
    be16_at, frame_packet, l4_header, packet_lies_in_frame, tag_of, untag, unwrap_headers,
    PacketView, Unwrapped,
};
use crate::trail::Deed;
use crate::xdp::{frame_handled, Tables};

verus! {

/// The two bytes at `at` are the type of a VLAN tag.
pub open spec fn tag_kind_at(f: Seq<u8>, at: int) -> bool {
    f[at] == 0x81 && f[at + 1] == 0 || f[at] == 0x88 && f[at + 1] == 0xa8
}

proof fn lemma_untag_steps(f: Seq<u8>, offset: int, eth_proto: u16, tags: Seq<VlanTag>)
    requires
        2 <= offset <= f.len(),
        eth_proto == be16_at(f, offset - 2),
        tags.len() <= 2,
    ensures
        untag(f, offset, eth_proto, tags) matches Ok(u) ==> {
            &&& tags.len() <= u.tags.len() <= 2
            &&& u.offset == offset + 4 * (u.tags.len() - tags.len()) <= f.len()
            &&& u.eth_proto == be16_at(f, u.offset - 2)
            &&& forall|k: int|
                0 <= k < u.tags.len() - tags.len() ==> #[trigger] tag_kind_at(
                    f,
                    offset - 2 + 4 * k,
                )
        },
    decreases 2 - tags.len(),
{
    if tags.len() < 2 && (eth_proto == 0x8100 || eth_proto == 0x88a8) && offset + 4 <= f.len() {
        let more = tags.push(tag_of(be16_at(f, offset)));
        lemma_untag_steps(f, offset + 4, be16_at(f, offset + 2), more);
        if let Ok(u) = untag(f, offset, eth_proto, tags) {
            assert forall|k: int| 0 <= k < u.tags.len() - tags.len() implies #[trigger] tag_kind_at(
                f,
                offset - 2 + 4 * k,
            ) by {
                if k > 0 {
                    assert(tag_kind_at(f, offset + 4 - 2 + 4 * (k - 1)));
                }
            }
        }
    }
}

proof fn lemma_unwrap_steps(f: Seq<u8>, at: Unwrapped, budget: nat)
    requires
        0 <= at.offset <= f.len(),
    ensures
        unwrap_headers(f, at, budget) matches Ok(u) ==> at.offset <= u.offset <= f.len() && (
        u.offset - at.offset) % 8 == 0,
    decreases budget,
{
    if budget > 0 {
        let off = at.offset;
        if at.ip_proto == 0 || at.ip_proto == 43 || at.ip_proto == 60 {
            if off + 2 <= f.len() && off + 8 * (f[off + 1] + 1) <= f.len() {
                lemma_unwrap_steps(
                    f,
                    Unwrapped {
                        ip_proto: f[off],
                        offset: off + 8 * (f[off + 1] + 1),
                        is_fragment: at.is_fragment,
                    },
                    (budget - 1) as nat,
                );
            }
        } else if at.ip_proto == 44 && off + 8 <= f.len() {
            lemma_unwrap_steps(
                f,
                Unwrapped { ip_proto: f[off], offset: off + 8, is_fragment: true },
                (budget - 1) as nat,
            );
        }
    }
}

/// What is read as a packet is one: behind the Ethernet header and at most two
/// tags stands a whole header of IPv4 or IPv6, behind it a whole header of TCP,
/// UDP or the control protocol of the family, and none of them says a length that
/// is too short for it or too long for the frame.
pub proof fn only_whole_frames_are_read(f: Seq<u8>, data: int, p: PacketView)
    requires
        frame_packet(f, data) == Ok::<PacketView, ParseError>(p),
    ensures
        ({
            let l3 = 14 + 4 * p.vlan_depth;
            let l4 = p.l4_offset - data;
            &&& 0 <= p.vlan_depth <= 2
            &&& p.l3_offset == data + l3
            &&& forall|k: int|
                0 <= k < p.vlan_depth ==> #[trigger] tag_kind_at(f, 12 + 4 * k)
            &&& p.family == 4 || p.family == 6
            &&& p.family == 4 ==> {
                &&& f[l3 - 2] == 8 && f[l3 - 1] == 0
                &&& 0x45 <= f[l3] <= 0x4f
                &&& l4 == l3 + 4 * (f[l3] - 0x40)
                &&& p.ip_proto == f[l3 + 9]
                &&& p.ip_proto == 1 || p.ip_proto == 6 || p.ip_proto == 17
            }
            &&& p.family == 6 ==> {
                &&& f[l3 - 2] == 0x86 && f[l3 - 1] == 0xdd
                &&& 0x60 <= f[l3] <= 0x6f
                &&& l4 >= l3 + 40 && (l4 - l3) % 8 == 0
                &&& p.ip_proto == 6 || p.ip_proto == 17 || p.ip_proto == 58
            }
            &&& p.ip_proto == 6 ==> f[l4 + 12] >= 0x50 && p.payload_offset == l4 + f[l4 + 12] / 16
                * 4
            &&& p.ip_proto != 6 ==> p.payload_offset == l4 + 8
            &&& p.payload_offset <= f.len()
        }),
{
    lemma_untag_steps(f, 14, be16_at(f, 12), Seq::empty());
    let u = untag(f, 14, be16_at(f, 12), Seq::empty())->Ok_0;
    assert forall|k: int| 0 <= k < p.vlan_depth implies #[trigger] tag_kind_at(f, 12 + 4 * k) by {
        assert(tag_kind_at(f, 14 - 2 + 4 * k));
    }
    if u.eth_proto == 0x86dd {
        lemma_unwrap_steps(
            f,
            Unwrapped { ip_proto: f[u.offset + 6], offset: u.offset + 40, is_fragment: false },
            4,
        );
    }
}

proof fn lemma_untag_cut(f: Seq<u8>, n: int, offset: int, eth_proto: u16, tags: Seq<VlanTag>)
    requires
        0 <= offset <= n <= f.len(),
        untag(f, offset, eth_proto, tags) is Ok,
    ensures
        untag(f.take(n), offset, eth_proto, tags) == if untag(
            f,
            offset,
            eth_proto,
            tags,
        )->Ok_0.offset <= n {
            untag(f, offset, eth_proto, tags)
        } else {
            Err(ParseError::Malformed)
        },
        untag(f, offset, eth_proto, tags)->Ok_0.offset >= offset,
    decreases 2 - tags.len(),
{
    if tags.len() < 2 && (eth_proto == 0x8100 || eth_proto == 0x88a8) {
        let more = tags.push(tag_of(be16_at(f, offset)));
        if offset + 4 <= n {
            assert(be16_at(f.take(n), offset) == be16_at(f, offset));
            assert(be16_at(f.take(n), offset + 2) == be16_at(f, offset + 2));
            lemma_untag_cut(f, n, offset + 4, be16_at(f, offset + 2), more);
        } else {
            lemma_untag_cut(f, f.len() as int, offset + 4, be16_at(f, offset + 2), more);
        }
    }
}

proof fn lemma_unwrap_cut(f: Seq<u8>, n: int, at: Unwrapped, budget: nat)
    requires
        0 <= at.offset <= n <= f.len(),
        unwrap_headers(f, at, budget) is Ok,
    ensures
        unwrap_headers(f.take(n), at, budget) == if unwrap_headers(f, at, budget)->Ok_0.offset
            <= n {
            unwrap_headers(f, at, budget)
        } else {
            Err(ParseError::Malformed)
        },
        unwrap_headers(f, at, budget)->Ok_0.offset >= at.offset,
    decreases budget,
{
    if budget > 0 {
        let off = at.offset;
        if at.ip_proto == 0 || at.ip_proto == 43 || at.ip_proto == 60 {
            let next = Unwrapped {
                ip_proto: f[off],
                offset: off + 8 * (f[off + 1] + 1),
                is_fragment: at.is_fragment,
            };
            if next.offset <= n {
                lemma_unwrap_cut(f, n, next, (budget - 1) as nat);
            } else {
                lemma_unwrap_cut(f, f.len() as int, next, (budget - 1) as nat);
            }
        } else if at.ip_proto == 44 {
            let next = Unwrapped { ip_proto: f[off], offset: off + 8, is_fragment: true };
            if next.offset <= n {
                lemma_unwrap_cut(f, n, next, (budget - 1) as nat);
            } else {
                lemma_unwrap_cut(f, f.len() as int, next, (budget - 1) as nat);
            }
        }
    }
}

proof fn lemma_l4_cut(f: Seq<u8>, n: int, off: int, proto: u8)
    requires
        0 <= off <= n <= f.len(),
        l4_header(f, off, proto) is Ok,
    ensures
        l4_header(f.take(n), off, proto) == if off + l4_header(f, off, proto)->Ok_0.len <= n {
            l4_header(f, off, proto)
        } else {
            Err(ParseError::Malformed)
        },
{
    if off + 4 <= n {
        assert(be16_at(f.take(n), off) == be16_at(f, off));
        assert(be16_at(f.take(n), off + 2) == be16_at(f, off + 2));
    }
}

/// A frame that is cut behind its headers is read as it was, with its new length;
/// one that is cut within them is malformed.
pub proof fn cut_frames_are_malformed(f: Seq<u8>, data: int, p: PacketView, n: int)
    requires
        frame_packet(f, data) == Ok::<PacketView, ParseError>(p),
        0 <= n <= f.len(),
    ensures
        n >= p.payload_offset ==> frame_packet(f.take(n), data) == Ok::<PacketView, ParseError>(
            PacketView { len: n, ..p },
        ),
        n < p.payload_offset ==> frame_packet(f.take(n), data) == Err::<PacketView, ParseError>(
            ParseError::Malformed,
        ),
{
    let t = f.take(n);
    packet_lies_in_frame(f, data);
    only_whole_frames_are_read(f, data, p);
    if n >= 14 {
        assert(be16_at(t, 12) == be16_at(f, 12));
        lemma_untag_cut(f, n, 14, be16_at(f, 12), Seq::empty());
        let u = untag(f, 14, be16_at(f, 12), Seq::empty())->Ok_0;
        let l3 = u.offset;
        let l4 = p.l4_offset - data;
        if p.family == 4 && l3 + 20 <= n {
            assert(be16_at(t, l3 + 6) == be16_at(f, l3 + 6));
            assert(t.subrange(l3 + 12, l3 + 16) =~= f.subrange(l3 + 12, l3 + 16));
            assert(t.subrange(l3 + 16, l3 + 20) =~= f.subrange(l3 + 16, l3 + 20));
            if l4 <= n {
                lemma_l4_cut(f, n, l4, p.ip_proto);
            }
        }
        if p.family == 6 && l3 + 40 <= n {
            assert(t.subrange(l3 + 8, l3 + 24) =~= f.subrange(l3 + 8, l3 + 24));
            assert(t.subrange(l3 + 24, l3 + 40) =~= f.subrange(l3 + 24, l3 + 40));
            lemma_unwrap_cut(
                f,
                n,
                Unwrapped { ip_proto: f[l3 + 6], offset: l3 + 40, is_fragment: false },
                4,
            );
            if l4 <= n {
                lemma_l4_cut(f, n, l4, p.ip_proto);
            }
        }
    }
}

/// An IPv4 packet of another protocol than TCP, UDP and the control protocol is
/// not supported, whatever it carries.
pub proof fn other_ipv4_protocols_are_unsupported(
    macs: Seq<u8>,
    tags: Seq<(u16, VlanTag)>,
    h: Header4,
    proto: u8,
    data: Seq<u8>,
    start: int,
)
    requires
        macs.len() == 12,
        tags_fit(tags),
        h.fits(),
        proto != 1 && proto != 6 && proto != 17,
    ensures
        frame_packet(ethernet(macs, tags, 0x0800, h.bytes(proto) + data), start) == Err::<
            PacketView,
            ParseError,
        >(ParseError::Unsupported),
{
    let head = h.bytes(proto);
    let inner = head + data;
    let f = ethernet(macs, tags, 0x0800, inner);
    let l3 = 14 + 4 * tags.len() as int;
    lemma_tags(macs, tags, 0x0800, inner);
    lemma_header4(h, proto);
    assert(inner[0] == f[l3 + 0] && inner[9] == f[l3 + 9]);
    assert(inner[0] == head[0] && inner[9] == head[9]);
}

/// An IPv6 packet whose headers end in another protocol than TCP, UDP and the
/// control protocol is not supported, nor is one with more than four extension
/// headers.
pub proof fn other_ipv6_protocols_are_unsupported(
    macs: Seq<u8>,
    tags: Seq<(u16, VlanTag)>,
    low: u8,
    rest: Seq<u8>,
    src: Seq<u8>,
    dst: Seq<u8>,
    exts: Seq<Extension>,
    proto: u8,
    data: Seq<u8>,
    start: int,
)
    requires
        macs.len() == 12,
        tags_fit(tags),
        low < 16,
        rest.len() == 6,
        src.len() == 16,
        dst.len() == 16,
        exts.len() <= 4,
        forall|i: int| 0 <= i < exts.len() ==> (#[trigger] exts[i]).fits(),
        proto != 6 && proto != 17 && proto != 58,
        proto != 0 && proto != 43 && proto != 44 && proto != 60 || exts.len() == 4,
    ensures
        frame_packet(
            ethernet(macs, tags, 0x86dd, net_ipv6(low, rest, src, dst, exts, proto) + data),
            start,
        ) == Err::<PacketView, ParseError>(ParseError::Unsupported),
{
    let head = net_ipv6(low, rest, src, dst, exts, proto);
    let inner = head + data;
    let f = ethernet(macs, tags, 0x86dd, inner);
    let l3 = 14 + 4 * tags.len() as int;
    let c = chain(exts, proto);
    lemma_tags(macs, tags, 0x86dd, inner);
    lemma_ipv6(low, rest, src, dst, exts, proto);
    assert(inner[0] == f[l3 + 0] && inner[6] == f[l3 + 6]);
    assert(inner[0] == head[0] && inner[6] == head[6]);
    assert forall|i: int| 0 <= i < c.len() implies #[trigger] c[i] == f[l3 + 40 + i] by {
        assert(c[i] == head[40 + i]);
        assert(inner[40 + i] == f[l3 + (40 + i)]);
    }
    lemma_chain(f, l3 + 40, exts, proto, false, 4);
}

/// A frame that is cut within its headers is aborted and moves the counter 11 by
/// one; nothing else is done for it.
pub proof fn cut_frames_are_aborted<T: Tables>(
    t: &T,
    ifindex: u32,
    before: Seq<u8>,
    after: Seq<u8>,
    f: Seq<u8>,
    p: PacketView,
    n: int,
    deeds: Seq<Deed>,
    action: u32,
)
    requires
        blank(t),
        frame_packet(f, before.len() as int) == Ok::<PacketView, ParseError>(p),
        0 <= n < p.payload_offset,
        n <= f.len(),
        frame_handled(
            t,
            ifindex,
            before + f.take(n) + after,
            before.len() as int,
            before.len() + n,
            deeds,
            action,
        ),
    ensures
        action == 0,
        deeds == seq![Deed::Counter { id: 11, value: 1 }],
{
    cut_frames_are_malformed(f, before.len() as int, p, n);
    assert((before + f.take(n) + after).subrange(before.len() as int, before.len() + n)
        =~= f.take(n));
}

} // verus!
