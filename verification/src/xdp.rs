//! The packet program: what becomes of a frame.
use vstd::prelude::*;

use crate::maps::{
    xdp_md, AclAction, CounterId, Event, EventKind, FlowKey, L4AclKey, L4AclValue, Packet,
    ParseError, RateLimitKey, RateLimitValue, VlanAclKey, VlanAclValue, AF_INET, AF_INET6,
    EVENT_SIZE, GLOBAL_RATE_LIMIT_RULE_ID, IP_PROTO_ICMPV6, IP_PROTO_TCP, IP_PROTO_UDP,
    MAX_REFILL_ELAPSED_NS, MAX_TOKENS, NSEC_PER_SEC, PACKET_COST, RATE_LIMIT_RULE_ID,
    REFILL_TOKENS_PER_SEC, XDP_ABORTED, XDP_DROP, XDP_PASS,
};
use crate::acl_key::{mask_byte, network};
use crate::packet::{outcome, packet_in, parse_packet, PacketView};
use crate::trace::{extends, lemma_push, lemma_same, lemma_since, since};
use crate::trail::{Deed, Sink, Trail};

verus! {

/// What the packet program reads. Nothing is assumed of what is answered.
pub trait Tables {
    /// The L4 ACL entry that the trie finds for a key.
    fn rule(&self, key: L4AclKey) -> Option<L4AclValue>;

    /// The VLAN ACL entry of a key.
    fn vlan_rule(&self, key: VlanAclKey) -> Option<VlanAclValue>;

    /// The token bucket of a key.
    fn bucket(&self, key: RateLimitKey) -> Option<RateLimitValue>;

    /// Nanoseconds since the machine started.
    fn now(&self) -> u64;

    /// The value of a counter, where it has a slot.
    fn counter(&self, id: u32) -> Option<u64>;

    /// The event mask, where one is stored.
    fn event_mask(&self) -> Option<u64>;
}

/// Something the program does besides its verdict.
#[derive(Clone, Copy, Debug, PartialEq, Eq, Structural)]
pub enum Effect {
    Count { counter: CounterId, value: u64 },
    Emit { kind: EventKind, aux0: u64, aux1: u64 },
}

pub open spec fn count(counter: CounterId, value: u64) -> Effect {
    Effect::Count { counter, value }
}

pub open spec fn emit(kind: EventKind, aux0: u64, aux1: u64) -> Effect {
    Effect::Emit { kind, aux0, aux1 }
}

// ---- Counters and events ----

/// `a + b`, at most the largest 64-bit number.
pub open spec fn saturating_sum(a: u64, b: u64) -> u64 {
    if a + b > u64::MAX {
        u64::MAX
    } else {
        (a + b) as u64
    }
}

/// The counter was read, and where it has a slot the sum was stored, once and
/// with nothing else.
pub open spec fn counted<T: Tables>(
    t: &T,
    counter: CounterId,
    value: u64,
    deeds: Seq<Deed>,
) -> bool {
    exists|slot: Option<u64>|
        {
            &&& #[trigger] call_ensures(T::counter, (t, counter.spec_code()), slot)
            &&& deeds == counting(counter, value, slot)
        }
}

/// What is done to add to a counter whose slot holds a value.
pub open spec fn counting(counter: CounterId, value: u64, slot: Option<u64>) -> Seq<Deed> {
    match slot {
        Some(v) => seq![
            Deed::Counter { id: counter.spec_code(), value: saturating_sum(v, value) },
        ],
        None => Seq::empty(),
    }
}

/// Adds `value` to a counter.
pub fn incr_counter<T: Tables, S: Sink>(t: &T, w: &mut Trail<S>, counter: CounterId, value: u64)
    ensures
        extends(old(w).deeds(), final(w).deeds()),
        final(w).sink() == old(w).sink(),
        counted(t, counter, value, since(old(w).deeds(), final(w).deeds())),
{
    let ghost start = w.deeds();
    proof {
        lemma_same(start);
    }
    let id: u32 = counter.code();
    let slot = t.counter(id);
    assert(call_ensures(T::counter, (t, counter.spec_code()), slot));
    if let Some(v) = slot {
        let sum: u64 = v.saturating_add(value);
        assert(sum == saturating_sum(v, value));
        w.set_counter(id, sum);
        proof {
            lemma_push(start, Deed::Counter { id, value: sum });
        }
    }
    assert(since(start, w.deeds()) =~= counting(counter, value, slot));
}

/// The bit of `mask` at the number of the kind.
pub open spec fn event_enabled_by(mask: u64, kind: EventKind) -> bool {
    (mask >> (kind.spec_code() as u64)) & 1 == 1
}

/// Whether events of a kind are published under the stored mask; without one
/// all are.
pub fn event_enabled(mask: Option<u64>, kind: EventKind) -> (r: bool)
    ensures
        r == match mask {
            Some(m) => event_enabled_by(m, kind),
            None => true,
        },
{
    let code: u32 = kind.code();
    match mask {
        Some(m) => {
            let bit: u64 = (m >> (code as u64)) & 1;
            bit == 1
        },
        None => true,
    }
}

/// What is done to publish an event, given the mask, whether there is room, and
/// the time.
pub open spec fn publishing(
    mask: Option<u64>,
    room: bool,
    event: Event,
) -> Seq<Deed> {
    if mask is Some && !event_enabled_by(mask->0, event.kind) {
        Seq::empty()
    } else if !room {
        seq![Deed::Room { size: EVENT_SIZE as u64, made: false }]
    } else {
        seq![Deed::Room { size: EVENT_SIZE as u64, made: true }, Deed::Published { event }]
    }
}

/// The mask was read; where it lets the kind through and room could be made,
/// the event was published at the present time, once and with nothing else.
pub open spec fn emitted<T: Tables>(
    t: &T,
    ifindex: u32,
    flow: FlowKey,
    kind: EventKind,
    aux0: u64,
    aux1: u64,
    deeds: Seq<Deed>,
) -> bool {
    exists|mask: Option<u64>, room: bool, ts_ns: u64|
        {
            &&& #[trigger] call_ensures(T::event_mask, (t,), mask)
            &&& deeds == #[trigger] publishing(
                mask,
                room,
                Event { ts_ns, kind, ifindex, flow, aux0, aux1 },
            )
            &&& deeds.len() == 2 ==> call_ensures(T::now, (t,), ts_ns)
        }
}

/// Publishes an event of the flow, if its kind is enabled.
pub fn emit_event<T: Tables, S: Sink>(
    t: &T,
    w: &mut Trail<S>,
    ctx: &xdp_md,
    flow: &FlowKey,
    kind: EventKind,
    aux0: u64,
    aux1: u64,
)
    ensures
        extends(old(w).deeds(), final(w).deeds()),
        final(w).sink() == old(w).sink(),
        emitted(
            t,
            ctx.ingress_ifindex,
            *flow,
            kind,
            aux0,
            aux1,
            since(old(w).deeds(), final(w).deeds()),
        ),
{
    let ghost start = w.deeds();
    proof {
        lemma_same(start);
    }
    let ghost none = Event {
        ts_ns: 0,
        kind,
        ifindex: ctx.ingress_ifindex,
        flow: *flow,
        aux0,
        aux1,
    };
    let mask = t.event_mask();
    assert(call_ensures(T::event_mask, (t,), mask));
    if !event_enabled(mask, kind) {
        assert(since(start, w.deeds()) =~= publishing(mask, false, none));
        return;
    }
    let room = w.reserve(EVENT_SIZE as u64);
    let ghost middle = w.deeds();
    proof {
        lemma_push(start, Deed::Room { size: EVENT_SIZE as u64, made: room });
    }
    if !room {
        assert(since(start, w.deeds()) =~= publishing(mask, false, none));
        return;
    }
    let ts_ns: u64 = t.now();
    assert(call_ensures(T::now, (t,), ts_ns));
    let event = Event { ts_ns, kind, ifindex: ctx.ingress_ifindex, flow: *flow, aux0, aux1 };
    w.submit(event);
    proof {
        lemma_push(middle, Deed::Published { event });
        lemma_since(start, middle, w.deeds());
    }
    assert(since(start, w.deeds()) =~= publishing(mask, true, event));
}

/// The effect took place for a packet of the flow, with nothing else.
pub open spec fn performed<T: Tables>(
    t: &T,
    ifindex: u32,
    flow: FlowKey,
    effect: Effect,
    deeds: Seq<Deed>,
) -> bool {
    match effect {
        Effect::Count { counter, value } => counted(t, counter, value, deeds),
        Effect::Emit { kind, aux0, aux1 } => emitted(t, ifindex, flow, kind, aux0, aux1, deeds),
    }
}

/// The effects took place in order, each once, with nothing else.
pub open spec fn all_performed<T: Tables>(
    t: &T,
    ifindex: u32,
    flow: FlowKey,
    effects: Seq<Effect>,
    deeds: Seq<Deed>,
) -> bool
    decreases effects.len(),
{
    if effects.len() == 0 {
        deeds.len() == 0
    } else {
        exists|k: int|
            {
                &&& 0 <= k <= deeds.len()
                &&& all_performed(t, ifindex, flow, effects.drop_last(), #[trigger] deeds.take(k))
                &&& performed(t, ifindex, flow, effects.last(), deeds.skip(k))
            }
    }
}

/// Performs the effects in order.
pub fn perform<T: Tables, S: Sink>(
    t: &T,
    w: &mut Trail<S>,
    ctx: &xdp_md,
    flow: &FlowKey,
    effects: &Vec<Effect>,
)
    ensures
        extends(old(w).deeds(), final(w).deeds()),
        final(w).sink() == old(w).sink(),
        all_performed(
            t,
            ctx.ingress_ifindex,
            *flow,
            effects@,
            since(old(w).deeds(), final(w).deeds()),
        ),
{
    let ghost start = w.deeds();
    let mut i: usize = 0;
    proof {
        lemma_same(start);
        assert(effects@.take(0) =~= Seq::empty());
    }
    while i < effects.len()
        invariant
            i <= effects@.len(),
            start == old(w).deeds(),
            w.sink() == old(w).sink(),
            extends(start, w.deeds()),
            all_performed(
                t,
                ctx.ingress_ifindex,
                *flow,
                effects@.take(i as int),
                since(start, w.deeds()),
            ),
        decreases effects@.len() - i,
    {
        let ghost before = w.deeds();
        match effects[i] {
            Effect::Count { counter, value } => {
                incr_counter(t, w, counter, value);
            },
            Effect::Emit { kind, aux0, aux1 } => {
                emit_event(t, w, ctx, flow, kind, aux0, aux1);
            },
        }
        proof {
            lemma_since(start, before, w.deeds());
            let done = since(start, w.deeds());
            let k = since(start, before).len() as int;
            assert(done.take(k) =~= since(start, before));
            assert(done.skip(k) =~= since(before, w.deeds()));
            assert(effects@.take(i + 1).drop_last() =~= effects@.take(i as int));
            assert(effects@.take(i + 1).last() == effects@[i as int]);
        }
        i += 1;
    }
    assert(effects@.take(i as int) =~= effects@);
}

// ---- The L4 ACL ----

/// `addr` with all but its first `n` bytes zeroed.
pub open spec fn keep_bytes(addr: Seq<u8>, n: int) -> Seq<u8> {
    Seq::new(
        addr.len(),
        |i: int|
            if i < n {
                addr[i]
            } else {
                0u8
            },
    )
}

/// How many bytes of an IPv6 address a mask of `prefix` bits keeps: only
/// prefixes of 8, 16, 32, 64 and 128 bits are told apart.
pub open spec fn ipv6_mask_bytes(prefix: u32) -> int {
    if prefix >= 128 {
        16
    } else if prefix >= 64 {
        8
    } else if prefix >= 32 {
        4
    } else if prefix >= 16 {
        2
    } else if prefix >= 8 {
        1
    } else {
        0
    }
}

/// The mask of the first `prefix` bits of an IPv4 address.
pub fn ipv4_cidr_mask(prefix: u32) -> (r: [u8; 4])
    ensures
        r@ == network(seq![0xffu8, 0xff, 0xff, 0xff], prefix as int),
{
    let r = [
        mask_byte(0xff, prefix, 0),
        mask_byte(0xff, prefix, 8),
        mask_byte(0xff, prefix, 16),
        mask_byte(0xff, prefix, 24),
    ];
    assert(r@ =~= network(seq![0xffu8, 0xff, 0xff, 0xff], prefix as int));
    r
}

/// The mask that keeps whole bytes of an IPv6 address.
pub fn ipv6_cidr_mask(prefix: u32) -> (r: [u8; 16])
    ensures
        forall|i: int|
            0 <= i < 16 ==> #[trigger] r@[i] == if i < ipv6_mask_bytes(prefix) {
                0xffu8
            } else {
                0u8
            },
{
    let keep: usize = if prefix >= 128 {
        16
    } else if prefix >= 64 {
        8
    } else if prefix >= 32 {
        4
    } else if prefix >= 16 {
        2
    } else if prefix >= 8 {
        1
    } else {
        0
    };
    let mut mask = [0u8; 16];
    let mut i: usize = 0;
    while i < keep
        invariant
            i <= keep <= 16,
            forall|j: int| 0 <= j < i ==> mask@[j] == 0xffu8,
            forall|j: int| i <= j < 16 ==> mask@[j] == 0u8,
        decreases keep - i,
    {
        mask[i] = 0xff;
        i += 1;
    }
    mask
}

proof fn lemma_mask_byte(x: u8)
    ensures
        x & 0xffu8 == x,
        x & 0u8 == 0,
{
    assert(x & 0xffu8 == x && x & 0u8 == 0) by (bit_vector);
}

/// The prefix lengths tried, longest first.
pub open spec fn probe_prefix(level: int) -> u32 {
    if level == 0 {
        352
    } else if level == 1 {
        336
    } else if level == 2 {
        320
    } else if level == 3 {
        304
    } else {
        272
    }
}

/// How many bytes of the source address the `m`-th mask of a family keeps:
/// IPv6 /128, /64, /32, /16, /8; IPv4 /32, /24, /16, /8, /0 of the last four
/// bytes.
pub open spec fn probe_source_bytes(family: u8, m: int) -> int {
    if family == AF_INET6 {
        if m == 0 {
            16
        } else if m == 1 {
            8
        } else if m == 2 {
            4
        } else if m == 3 {
            2
        } else {
            1
        }
    } else {
        16 - m
    }
}

/// `key` is the key of the flow at prefix level `level` under the source mask
/// `m`: the fields that lie behind the prefix are zero.
pub open spec fn is_probe(key: L4AclKey, flow: FlowKey, level: int, m: int) -> bool {
    &&& key.prefix_len == probe_prefix(level)
    &&& key.family == flow.family
    &&& key.src_addr@ == keep_bytes(flow.src_addr@, probe_source_bytes(flow.family, m))
    &&& key.dst_addr@ == keep_bytes(
        flow.dst_addr@,
        if level >= 4 {
            13
        } else {
            16
        },
    )
    &&& key.ip_proto == if level >= 4 {
        0
    } else {
        flow.ip_proto
    }
    &&& key.dst_port == if level >= 3 {
        0
    } else {
        flow.dst_port
    }
    &&& key.src_port == if level >= 2 {
        0
    } else {
        flow.src_port
    }
    &&& key.tcp_flags_mask == 0
    &&& key.tcp_flags_value == 0
    &&& key._pad == 0
    &&& key._pad2 == 0
}

/// The key of the flow at a prefix level under a source mask.
pub fn probe_key(flow: &FlowKey, level: usize, m: usize) -> (key: L4AclKey)
    requires
        level < 5,
        m < 5,
    ensures
        is_probe(key, *flow, level as int, m as int),
{
    let prefix_len: u32 = if level == 0 {
        352
    } else if level == 1 {
        336
    } else if level == 2 {
        320
    } else if level == 3 {
        304
    } else {
        272
    };
    let mut src_addr = flow.src_addr;
    if flow.family == AF_INET6 {
        let prefix: u32 = if m == 0 {
            128
        } else if m == 1 {
            64
        } else if m == 2 {
            32
        } else if m == 3 {
            16
        } else {
            8
        };
        let mask = ipv6_cidr_mask(prefix);
        let mut j: usize = 0;
        while j < 16
            invariant
                j <= 16,
                forall|i: int|
                    0 <= i < 16 ==> #[trigger] mask@[i] == if i < ipv6_mask_bytes(prefix) {
                        0xffu8
                    } else {
                        0u8
                    },
                forall|i: int| j <= i < 16 ==> src_addr@[i] == flow.src_addr@[i],
                forall|i: int|
                    0 <= i < j ==> #[trigger] src_addr@[i] == if i < ipv6_mask_bytes(prefix) {
                        flow.src_addr@[i]
                    } else {
                        0u8
                    },
            decreases 16 - j,
        {
            proof {
                lemma_mask_byte(src_addr@[j as int]);
            }
            src_addr[j] = src_addr[j] & mask[j];
            j += 1;
        }
    } else {
        let prefix: u32 = if m == 0 {
            32
        } else if m == 1 {
            24
        } else if m == 2 {
            16
        } else if m == 3 {
            8
        } else {
            0
        };
        let mask = ipv4_cidr_mask(prefix);
        proof {
            lemma_mask_byte(src_addr@[12]);
            lemma_mask_byte(src_addr@[13]);
            lemma_mask_byte(src_addr@[14]);
            lemma_mask_byte(src_addr@[15]);
        }
        src_addr[12] = src_addr[12] & mask[0];
        src_addr[13] = src_addr[13] & mask[1];
        src_addr[14] = src_addr[14] & mask[2];
        src_addr[15] = src_addr[15] & mask[3];
    }
    assert(src_addr@ =~= keep_bytes(flow.src_addr@, probe_source_bytes(flow.family, m as int)));
    let mut dst_addr = flow.dst_addr;
    if level >= 4 {
        dst_addr[13] = 0;
        dst_addr[14] = 0;
        dst_addr[15] = 0;
    }
    assert(dst_addr@ =~= keep_bytes(
        flow.dst_addr@,
        if level >= 4 {
            13
        } else {
            16
        },
    ));
    L4AclKey {
        prefix_len,
        family: flow.family,
        src_addr,
        dst_addr,
        ip_proto: if level >= 4 {
            0
        } else {
            flow.ip_proto
        },
        dst_port: if level >= 3 {
            0
        } else {
            flow.dst_port
        },
        src_port: if level >= 2 {
            0
        } else {
            flow.src_port
        },
        tcp_flags_mask: 0,
        tcp_flags_value: 0,
        _pad: 0,
        _pad2: 0,
    }
}

/// The trie answered `reply` for the `n`-th key of the flow: all source masks
/// of the longest prefix first.
pub open spec fn probed<T: Tables>(
    t: &T,
    flow: FlowKey,
    n: int,
    reply: Option<L4AclValue>,
) -> bool {
    exists|key: L4AclKey|
        is_probe(key, flow, n / 5, n % 5) && #[trigger] call_ensures(T::rule, (t, key), reply)
}

/// The rule found is the first answer, in the order of the 25 keys, that is
/// not empty.
pub open spec fn rule_found<T: Tables>(t: &T, flow: FlowKey, found: Option<L4AclValue>) -> bool {
    match found {
        Some(v) => exists|n: int|
            {
                &&& 0 <= n < 25
                &&& #[trigger] probed(t, flow, n, Some(v))
                &&& forall|i: int| 0 <= i < n ==> #[trigger] probed(t, flow, i, None)
            },
        None => forall|i: int| 0 <= i < 25 ==> #[trigger] probed(t, flow, i, None),
    }
}

/// Looks the packet up in the L4 ACL.
pub fn acl_l4<T: Tables>(t: &T, packet: &Packet) -> (r: Option<L4AclValue>)
    ensures
        rule_found(t, packet.flow, r),
{
    let mut n: usize = 0;
    while n < 25
        invariant
            n <= 25,
            forall|i: int| 0 <= i < n ==> #[trigger] probed(t, packet.flow, i, None),
        decreases 25 - n,
    {
        let key = probe_key(&packet.flow, n / 5, n % 5);
        let reply = t.rule(key);
        assert(probed(t, packet.flow, n as int, reply));
        if reply.is_some() {
            return reply;
        }
        n += 1;
    }
    None
}

// ---- The VLAN ACL ----

/// `key` is the key of a pair of tags.
pub open spec fn is_vlan_key(key: VlanAclKey, outer: u16, inner: u16) -> bool {
    key.outer_vlan == outer && key.inner_vlan == inner && key._pad@ == seq![0u8, 0, 0, 0]
}

pub open spec fn vlan_asked<T: Tables>(
    t: &T,
    outer: u16,
    inner: u16,
    reply: Option<VlanAclValue>,
) -> bool {
    exists|key: VlanAclKey|
        is_vlan_key(key, outer, inner) && #[trigger] call_ensures(T::vlan_rule, (t, key), reply)
}

/// A rule of the outer tag alone comes first; the rule of both tags is looked
/// up only where the packet has two and the first look found nothing.
pub open spec fn vlan_rule_found<T: Tables>(
    t: &T,
    packet: Packet,
    found: Option<VlanAclValue>,
) -> bool {
    if packet.vlan_depth == 0 {
        found is None
    } else {
        let outer = packet.vlan@[0].id;
        ||| found is Some && vlan_asked(t, outer, 0, found)
        ||| vlan_asked(t, outer, 0, None) && packet.vlan_depth >= 2 && vlan_asked(
            t,
            outer,
            packet.vlan@[1].id,
            found,
        )
        ||| vlan_asked(t, outer, 0, None) && packet.vlan_depth < 2 && found is None
    }
}

/// Looks the packet's tags up in the VLAN ACL.
pub fn check_vlan_acl<T: Tables>(t: &T, packet: &Packet) -> (r: Option<VlanAclValue>)
    ensures
        vlan_rule_found(t, *packet, r),
{
    if packet.vlan_depth == 0 {
        return None;
    }
    let outer_vlan: u16 = packet.vlan[0].id;
    let single = VlanAclKey { outer_vlan, inner_vlan: 0, _pad: [0, 0, 0, 0] };
    assert(single._pad@ =~= seq![0u8, 0, 0, 0]);
    let first = t.vlan_rule(single);
    assert(vlan_asked(t, outer_vlan, 0, first));
    if first.is_some() {
        return first;
    }
    if packet.vlan_depth >= 2 {
        let inner_vlan: u16 = packet.vlan[1].id;
        let double = VlanAclKey { outer_vlan, inner_vlan, _pad: [0, 0, 0, 0] };
        assert(double._pad@ =~= seq![0u8, 0, 0, 0]);
        let second = t.vlan_rule(double);
        assert(vlan_asked(t, outer_vlan, inner_vlan, second));
        return second;
    }
    None
}

// ---- Rate limiting ----

/// The size of a bucket: 256 seconds' worth of a rule's own rate, or the
/// global size where the rule has none.
pub open spec fn bucket_size(rate_pps: u32) -> int {
    if rate_pps > 0 {
        256 * rate_pps
    } else {
        MAX_TOKENS as int
    }
}

/// Tokens added per second.
pub open spec fn bucket_refill(rate_pps: u32) -> int {
    if rate_pps > 0 {
        rate_pps as int
    } else {
        REFILL_TOKENS_PER_SEC as int
    }
}

/// `key` is the key of the bucket of the packet's source.
pub open spec fn is_bucket_key(key: RateLimitKey, flow: FlowKey, rate_pps: u32) -> bool {
    &&& key.addr@ == flow.src_addr@
    &&& key.family == flow.family
    &&& key._pad@ == seq![0u8, 0, 0]
    &&& key.rule_id == if rate_pps > 0 {
        RATE_LIMIT_RULE_ID
    } else {
        GLOBAL_RATE_LIMIT_RULE_ID
    }
}

/// A new bucket is full but for the token of the packet that made it.
pub open spec fn fresh_bucket(rate_pps: u32, now: u64, len: u64) -> RateLimitValue {
    RateLimitValue {
        tokens: (bucket_size(rate_pps) - PACKET_COST) as u64,
        last_refill_ns: now,
        packet_count: 1,
        byte_count: len,
    }
}

/// The tokens that a bucket has earned by `now`: at most a second's worth, in
/// whole tokens.
pub open spec fn earned(bucket: RateLimitValue, rate_pps: u32, now: u64) -> int {
    let passed = if now > bucket.last_refill_ns {
        now - bucket.last_refill_ns
    } else {
        0
    };
    let elapsed = if passed < MAX_REFILL_ELAPSED_NS {
        passed
    } else {
        MAX_REFILL_ELAPSED_NS as int
    };
    (elapsed * bucket_refill(rate_pps)) / (NSEC_PER_SEC as int)
}

/// The bucket after a packet of `len` bytes at `now`, and whether the packet
/// had a token to take.
pub open spec fn charged(bucket: RateLimitValue, rate_pps: u32, now: u64, len: u64) -> (
    RateLimitValue,
    bool,
) {
    let refill = earned(bucket, rate_pps, now);
    let full = bucket_size(rate_pps);
    let tokens = if refill == 0 {
        bucket.tokens as int
    } else if bucket.tokens + refill < full {
        bucket.tokens + refill
    } else {
        full
    };
    let pass = tokens >= PACKET_COST;
    (
        RateLimitValue {
            tokens: if pass {
                (tokens - PACKET_COST) as u64
            } else {
                tokens as u64
            },
            last_refill_ns: if refill == 0 {
                bucket.last_refill_ns
            } else {
                now
            },
            packet_count: saturating_sum(bucket.packet_count, 1),
            byte_count: saturating_sum(bucket.byte_count, len),
        },
        pass,
    )
}

/// The bucket of a source seen for the first time.
pub fn new_bucket(rate_pps: u32, now: u64, len: u64) -> (r: RateLimitValue)
    ensures
        r == fresh_bucket(rate_pps, now, len),
{
    let max_tokens: u64 = if rate_pps > 0 {
        (rate_pps as u64) * 256
    } else {
        MAX_TOKENS
    };
    RateLimitValue {
        tokens: max_tokens.saturating_sub(PACKET_COST),
        last_refill_ns: now,
        packet_count: 1,
        byte_count: len,
    }
}

pub fn min_u64(lhs: u64, rhs: u64) -> (r: u64)
    ensures
        r == if lhs < rhs {
            lhs
        } else {
            rhs
        },
{
    if lhs < rhs {
        lhs
    } else {
        rhs
    }
}

/// Refills a bucket and takes a token for a packet, if there is one.
pub fn charge(bucket: RateLimitValue, rate_pps: u32, now: u64, len: u64) -> (r: (
    RateLimitValue,
    bool,
))
    ensures
        r == charged(bucket, rate_pps, now, len),
{
    let max_tokens: u64 = if rate_pps > 0 {
        (rate_pps as u64) * 256
    } else {
        MAX_TOKENS
    };
    let refill_tokens: u64 = if rate_pps > 0 {
        rate_pps as u64
    } else {
        REFILL_TOKENS_PER_SEC
    };
    let elapsed: u64 = min_u64(now.saturating_sub(bucket.last_refill_ns), MAX_REFILL_ELAPSED_NS);
    assert(elapsed * refill_tokens <= 1_000_000_000 * 0xffff_ffff) by (nonlinear_arith)
        requires
            elapsed <= 1_000_000_000,
            refill_tokens <= 0xffff_ffff,
    ;
    let refill: u64 = (elapsed * refill_tokens) / NSEC_PER_SEC;
    assert(refill == earned(bucket, rate_pps, now));
    let mut b = bucket;
    if refill != 0 {
        b.tokens = min_u64(max_tokens, b.tokens.saturating_add(refill));
        b.last_refill_ns = now;
    }
    b.packet_count = b.packet_count.saturating_add(1);
    b.byte_count = b.byte_count.saturating_add(len);
    if b.tokens < PACKET_COST {
        return (b, false);
    }
    b.tokens = b.tokens.saturating_sub(PACKET_COST);
    (b, true)
}

/// What the limiter does with a bucket that was found or not, and whether the
/// packet passes: on a new bucket where it could be stored, on an old one where
/// a token was left.
pub open spec fn limiting(
    key: RateLimitKey,
    found: Option<RateLimitValue>,
    rate_pps: u32,
    now: u64,
    len: u64,
    reply: i64,
) -> (Deed, bool) {
    match found {
        None => (
            Deed::Bucket { key, bucket: fresh_bucket(rate_pps, now, len), reply },
            reply >= 0,
        ),
        Some(b) => {
            let after = charged(b, rate_pps, now, len);
            (Deed::Bucket { key, bucket: after.0, reply }, after.1)
        },
    }
}

/// The rate limiter looked the bucket of the flow up at the present time and
/// stored it once, charged; it did nothing else.
pub open spec fn limited<T: Tables>(
    t: &T,
    packet: Packet,
    rate_pps: u32,
    deeds: Seq<Deed>,
    pass: bool,
) -> bool {
    exists|key: RateLimitKey, now: u64, found: Option<RateLimitValue>, reply: i64|
        {
            &&& is_bucket_key(key, packet.flow, rate_pps)
            &&& #[trigger] call_ensures(T::now, (t,), now)
            &&& #[trigger] call_ensures(T::bucket, (t, key), found)
            &&& deeds == seq![
                (#[trigger] limiting(key, found, rate_pps, now, packet.len, reply)).0,
            ]
            &&& pass == limiting(key, found, rate_pps, now, packet.len, reply).1
        }
}

/// Charges the packet to the bucket of its source: that of the rule's own
/// rate where `rate_pps` is not 0, else the global one. False where the packet
/// is over the limit.
pub fn apply_rate_limit<T: Tables, S: Sink>(
    t: &T,
    w: &mut Trail<S>,
    packet: &Packet,
    rate_pps: u32,
) -> (pass: bool)
    ensures
        extends(old(w).deeds(), final(w).deeds()),
        final(w).sink() == old(w).sink(),
        limited(t, *packet, rate_pps, since(old(w).deeds(), final(w).deeds()), pass),
{
    let ghost start = w.deeds();
    let rule_id: u32 = if rate_pps > 0 {
        RATE_LIMIT_RULE_ID
    } else {
        GLOBAL_RATE_LIMIT_RULE_ID
    };
    let key = RateLimitKey {
        addr: packet.flow.src_addr,
        rule_id,
        family: packet.flow.family,
        _pad: [0, 0, 0],
    };
    assert(key._pad@ =~= seq![0u8, 0, 0]);
    let now: u64 = t.now();
    let found = t.bucket(key);
    assert(call_ensures(T::now, (t,), now) && call_ensures(T::bucket, (t, key), found));
    let (value, left) = match found {
        None => (new_bucket(rate_pps, now, packet.len), true),
        Some(b) => charge(b, rate_pps, now, packet.len),
    };
    let reply: i64 = w.store_bucket(key, value);
    proof {
        lemma_push(start, Deed::Bucket { key, bucket: value, reply });
        assert(limiting(key, found, rate_pps, now, packet.len, reply).0 == (Deed::Bucket {
            key,
            bucket: value,
            reply,
        }));
    }
    match found {
        None => reply >= 0,
        Some(_) => left,
    }
}

// ---- The verdict ----

/// What the tables said about a packet. A field that the verdict does not
/// depend on may hold anything.
#[derive(Clone, Copy, Debug, PartialEq, Eq, Structural)]
pub struct Replies {
    /// The VLAN rule, and whether the packet is within its rate.
    pub vlan: Option<VlanAclValue>,
    pub vlan_within: bool,
    /// The L4 rule, and whether the packet is within its rate or the global one.
    pub rule: Option<L4AclValue>,
    pub within: bool,
}

/// Counted while the packet is taken apart.
pub open spec fn parse_effects(p: Packet) -> Seq<Effect> {
    if p.flow.family == AF_INET6 && p.flow.ip_proto == IP_PROTO_ICMPV6 {
        seq![count(CounterId::RxIcmpv6, 1)]
    } else {
        Seq::empty()
    }
}

/// The counter of a transport protocol.
pub open spec fn transport_counter(ip_proto: u8) -> CounterId {
    if ip_proto == IP_PROTO_TCP {
        CounterId::RxTcp
    } else if ip_proto == IP_PROTO_UDP {
        CounterId::RxUdp
    } else if ip_proto == IP_PROTO_ICMPV6 {
        CounterId::RxIcmpv6
    } else {
        CounterId::Unknown
    }
}

/// Tags, network and transport protocol of the packet.
pub open spec fn arrival_effects(p: Packet) -> Seq<Effect> {
    let tags = if p.vlan_depth > 0 {
        seq![
            count(CounterId::RxVlan, 1),
            emit(EventKind::VlanDetected, p.vlan@[0].id as u64, p.vlan_depth as u64),
        ]
    } else {
        Seq::empty()
    };
    let l3 = if p.flow.family == AF_INET {
        CounterId::RxIpv4
    } else if p.flow.family == AF_INET6 {
        CounterId::RxIpv6
    } else {
        CounterId::Unknown
    };
    parse_effects(p) + tags + seq![count(l3, 1), count(transport_counter(p.flow.ip_proto), 1)]
}

pub open spec fn over_limit_effects(p: Packet) -> Seq<Effect> {
    seq![
        count(CounterId::Dropped, 1),
        count(CounterId::RateLimited, 1),
        emit(EventKind::RateLimited, p.len, 0),
    ]
}

pub open spec fn allow_effects() -> Seq<Effect> {
    seq![count(CounterId::AclAllow, 1), emit(EventKind::PacketAllow, 0, 0)]
}

/// The VLAN rule that decides about the packet: one of a tagged packet.
pub open spec fn vlan_rule_of(p: Packet, replies: Replies) -> Option<VlanAclValue> {
    if p.vlan_depth > 0 {
        replies.vlan
    } else {
        None
    }
}

/// The VLAN stage drops the packet.
pub open spec fn vlan_drops(p: Packet, replies: Replies) -> bool {
    match vlan_rule_of(p, replies) {
        Some(v) => v.action == AclAction::Drop || (v.action == AclAction::Allow && v.rate > 0
            && !replies.vlan_within),
        None => false,
    }
}

pub open spec fn vlan_effects(p: Packet, replies: Replies) -> Seq<Effect> {
    match vlan_rule_of(p, replies) {
        Some(v) => if v.action == AclAction::Drop {
            seq![count(CounterId::Dropped, 1), emit(EventKind::PacketDrop, 0, 0)]
        } else if v.action == AclAction::Allow {
            if v.rate > 0 && !replies.vlan_within {
                allow_effects() + over_limit_effects(p)
            } else {
                allow_effects()
            }
        } else {
            Seq::empty()
        },
        None => Seq::empty(),
    }
}

/// What the L4 ACL says: without a rule the packet is allowed at the global
/// rate.
pub open spec fn acl_decision(rule: Option<L4AclValue>) -> (AclAction, u32) {
    match rule {
        Some(v) => (v.action, v.rate),
        None => (AclAction::Allow, 0),
    }
}

pub open spec fn acl_drops(replies: Replies) -> bool {
    let action = acl_decision(replies.rule).0;
    action == AclAction::Drop || (action == AclAction::Allow && !replies.within)
}

pub open spec fn acl_effects(p: Packet, replies: Replies) -> Seq<Effect> {
    let received = seq![count(CounterId::RxPackets, 1), count(CounterId::RxBytes, p.len)];
    let action = acl_decision(replies.rule).0;
    if action == AclAction::Drop {
        received + seq![
            count(CounterId::Dropped, 1),
            count(CounterId::AclDrop, 1),
            emit(EventKind::PacketDrop, 0, 0),
        ]
    } else if action == AclAction::Allow {
        if replies.within {
            received + allow_effects()
        } else {
            received + allow_effects() + over_limit_effects(p)
        }
    } else {
        received
    }
}

/// The verdict on a packet: the VLAN stage may drop it; a fragment passes
/// without a look at the L4 ACL; the L4 ACL may drop it; else it passes.
pub open spec fn verdict(p: Packet, replies: Replies) -> u32 {
    if vlan_drops(p, replies) {
        XDP_DROP
    } else if p.is_fragment {
        XDP_PASS
    } else if acl_drops(replies) {
        XDP_DROP
    } else {
        XDP_PASS
    }
}

/// All that is counted and published for a packet, in order.
pub open spec fn effects(p: Packet, replies: Replies) -> Seq<Effect> {
    let before = arrival_effects(p) + vlan_effects(p, replies);
    if vlan_drops(p, replies) || p.is_fragment {
        before
    } else {
        before + acl_effects(p, replies)
    }
}

fn log_count(log: &mut Vec<Effect>, counter: CounterId, value: u64)
    ensures
        final(log)@ == old(log)@.push(count(counter, value)),
{
    log.push(Effect::Count { counter, value });
}

fn log_emit(log: &mut Vec<Effect>, kind: EventKind, aux0: u64, aux1: u64)
    ensures
        final(log)@ == old(log)@.push(emit(kind, aux0, aux1)),
{
    log.push(Effect::Emit { kind, aux0, aux1 });
}

fn log_allow(log: &mut Vec<Effect>)
    ensures
        final(log)@ == old(log)@ + allow_effects(),
{
    log_count(log, CounterId::AclAllow, 1);
    log_emit(log, EventKind::PacketAllow, 0, 0);
}

fn log_over_limit(log: &mut Vec<Effect>, packet: &Packet)
    ensures
        final(log)@ == old(log)@ + over_limit_effects(*packet),
{
    log_count(log, CounterId::Dropped, 1);
    log_count(log, CounterId::RateLimited, 1);
    log_emit(log, EventKind::RateLimited, packet.len, 0);
}

fn log_parse(log: &mut Vec<Effect>, packet: &Packet)
    ensures
        final(log)@ == old(log)@ + parse_effects(*packet),
{
    if packet.flow.family == AF_INET6 && packet.flow.ip_proto == IP_PROTO_ICMPV6 {
        log_count(log, CounterId::RxIcmpv6, 1);
    }
    assert(log@ =~= old(log)@ + parse_effects(*packet));
}

fn log_transport(log: &mut Vec<Effect>, ip_proto: u8)
    ensures
        final(log)@ == old(log)@.push(count(transport_counter(ip_proto), 1)),
{
    let counter = if ip_proto == IP_PROTO_TCP {
        CounterId::RxTcp
    } else if ip_proto == IP_PROTO_UDP {
        CounterId::RxUdp
    } else if ip_proto == IP_PROTO_ICMPV6 {
        CounterId::RxIcmpv6
    } else {
        CounterId::Unknown
    };
    log_count(log, counter, 1);
}

fn log_arrival(log: &mut Vec<Effect>, packet: &Packet)
    ensures
        final(log)@ == old(log)@ + arrival_effects(*packet),
{
    log_parse(log, packet);
    if packet.vlan_depth > 0 {
        log_count(log, CounterId::RxVlan, 1);
        log_emit(log, EventKind::VlanDetected, packet.vlan[0].id as u64, packet.vlan_depth as u64);
    }
    let l3 = if packet.flow.family == AF_INET {
        CounterId::RxIpv4
    } else if packet.flow.family == AF_INET6 {
        CounterId::RxIpv6
    } else {
        CounterId::Unknown
    };
    log_count(log, l3, 1);
    log_transport(log, packet.flow.ip_proto);
    assert(log@ =~= old(log)@ + arrival_effects(*packet));
}

/// The action and rate for a packet under the L4 rule found for it.
pub fn acl_action(rule: Option<L4AclValue>) -> (r: (AclAction, u32))
    ensures
        r == acl_decision(rule),
{
    match rule {
        Some(v) => (v.action, v.rate),
        None => (AclAction::Allow, 0),
    }
}

/// What is done of the VLAN stage before its rate is looked at.
pub open spec fn vlan_start(p: Packet, replies: Replies) -> Seq<Effect> {
    match vlan_rule_of(p, replies) {
        Some(v) => if v.action == AclAction::Drop {
            seq![count(CounterId::Dropped, 1), emit(EventKind::PacketDrop, 0, 0)]
        } else if v.action == AclAction::Allow {
            allow_effects()
        } else {
            Seq::empty()
        },
        None => Seq::empty(),
    }
}

/// The effects before the rate of the VLAN rule is looked at.
pub open spec fn first_effects(p: Packet, replies: Replies) -> Seq<Effect> {
    arrival_effects(p) + vlan_start(p, replies)
}

/// The VLAN rule has a rate that counts.
pub open spec fn vlan_limits(p: Packet, replies: Replies) -> bool {
    vlan_rule_of(p, replies) matches Some(v) && v.action == AclAction::Allow && v.rate > 0
}

/// The L4 ACL is asked about the packet.
pub open spec fn acl_reached(p: Packet, replies: Replies) -> bool {
    !vlan_drops(p, replies) && !p.is_fragment
}

/// The effects between the two looks at a rate.
pub open spec fn second_effects(p: Packet, replies: Replies) -> Seq<Effect> {
    if vlan_limits(p, replies) && !replies.vlan_within {
        over_limit_effects(p)
    } else if !acl_reached(p, replies) {
        Seq::empty()
    } else {
        let action = acl_decision(replies.rule).0;
        seq![count(CounterId::RxPackets, 1), count(CounterId::RxBytes, p.len)] + if action
            == AclAction::Drop {
            seq![
                count(CounterId::Dropped, 1),
                count(CounterId::AclDrop, 1),
                emit(EventKind::PacketDrop, 0, 0),
            ]
        } else if action == AclAction::Allow {
            allow_effects()
        } else {
            Seq::empty()
        }
    }
}

/// The rate of the L4 rule, or the global one, is looked at.
pub open spec fn acl_limits(p: Packet, replies: Replies) -> bool {
    acl_reached(p, replies) && acl_decision(replies.rule).0 == AclAction::Allow
}

/// The effects behind the second look at a rate.
pub open spec fn third_effects(p: Packet, replies: Replies) -> Seq<Effect> {
    if acl_limits(p, replies) && !replies.within {
        over_limit_effects(p)
    } else {
        Seq::empty()
    }
}

/// The three stretches of effects together are all effects.
pub proof fn effects_in_three_stretches(p: Packet, replies: Replies)
    ensures
        effects(p, replies) == first_effects(p, replies) + second_effects(p, replies)
            + third_effects(p, replies),
{
    assert(effects(p, replies) =~= first_effects(p, replies) + second_effects(p, replies)
        + third_effects(p, replies));
}

fn log_first(log: &mut Vec<Effect>, packet: &Packet, replies: &Replies)
    ensures
        final(log)@ == old(log)@ + first_effects(*packet, *replies),
{
    log_arrival(log, packet);
    if packet.vlan_depth > 0 {
        if let Some(v) = replies.vlan {
            match v.action {
                AclAction::Drop => {
                    log_count(log, CounterId::Dropped, 1);
                    log_emit(log, EventKind::PacketDrop, 0, 0);
                },
                AclAction::Allow => {
                    log_allow(log);
                },
                _ => {},
            }
        }
    }
    assert(log@ =~= old(log)@ + first_effects(*packet, *replies));
}

fn is_vlan_limited(packet: &Packet, replies: &Replies) -> (r: bool)
    ensures
        r == vlan_limits(*packet, *replies),
{
    if packet.vlan_depth == 0 {
        return false;
    }
    match replies.vlan {
        Some(v) => match v.action {
            AclAction::Allow => v.rate > 0,
            _ => false,
        },
        None => false,
    }
}

fn is_vlan_dropped(packet: &Packet, replies: &Replies) -> (r: bool)
    ensures
        r == vlan_drops(*packet, *replies),
{
    if packet.vlan_depth == 0 {
        return false;
    }
    match replies.vlan {
        Some(v) => match v.action {
            AclAction::Drop => true,
            AclAction::Allow => v.rate > 0 && !replies.vlan_within,
            _ => false,
        },
        None => false,
    }
}

fn log_second(log: &mut Vec<Effect>, packet: &Packet, replies: &Replies)
    ensures
        final(log)@ == old(log)@ + second_effects(*packet, *replies),
{
    if is_vlan_limited(packet, replies) && !replies.vlan_within {
        log_over_limit(log, packet);
    } else if !is_vlan_dropped(packet, replies) && !packet.is_fragment {
        log_count(log, CounterId::RxPackets, 1);
        log_count(log, CounterId::RxBytes, packet.len);
        let (action, _rate) = acl_action(replies.rule);
        match action {
            AclAction::Drop => {
                log_count(log, CounterId::Dropped, 1);
                log_count(log, CounterId::AclDrop, 1);
                log_emit(log, EventKind::PacketDrop, 0, 0);
            },
            AclAction::Allow => {
                log_allow(log);
            },
            _ => {},
        }
    }
    assert(log@ =~= old(log)@ + second_effects(*packet, *replies));
}

fn is_acl_limited(packet: &Packet, replies: &Replies) -> (r: bool)
    ensures
        r == acl_limits(*packet, *replies),
{
    if is_vlan_dropped(packet, replies) || packet.is_fragment {
        return false;
    }
    match acl_action(replies.rule).0 {
        AclAction::Allow => true,
        _ => false,
    }
}

fn log_third(log: &mut Vec<Effect>, packet: &Packet, replies: &Replies)
    ensures
        final(log)@ == old(log)@ + third_effects(*packet, *replies),
{
    if is_acl_limited(packet, replies) && !replies.within {
        log_over_limit(log, packet);
    }
    assert(log@ =~= old(log)@ + third_effects(*packet, *replies));
}

fn judge(packet: &Packet, replies: &Replies) -> (r: u32)
    ensures
        r == verdict(*packet, *replies),
{
    if is_vlan_dropped(packet, replies) {
        return XDP_DROP;
    }
    if packet.is_fragment {
        return XDP_PASS;
    }
    match acl_action(replies.rule).0 {
        AclAction::Drop => XDP_DROP,
        AclAction::Allow => if replies.within {
            XDP_PASS
        } else {
            XDP_DROP
        },
        _ => XDP_PASS,
    }
}

/// The verdict and the effects for a packet, from what the tables said.
pub fn decide(packet: &Packet, replies: &Replies) -> (r: (u32, Vec<Effect>))
    ensures
        r.0 == verdict(*packet, *replies),
        r.1@ == effects(*packet, *replies),
{
    let mut log: Vec<Effect> = Vec::new();
    log_first(&mut log, packet, replies);
    log_second(&mut log, packet, replies);
    log_third(&mut log, packet, replies);
    proof {
        effects_in_three_stretches(*packet, *replies);
    }
    assert(log@ =~= effects(*packet, *replies));
    (judge(packet, replies), log)
}

/// What the program did for a packet, stretch by stretch: effects, the bucket
/// of the VLAN rule, effects, the bucket of the L4 rule, effects.
pub struct Stretches {
    pub first: Seq<Deed>,
    pub vlan: Seq<Deed>,
    pub second: Seq<Deed>,
    pub acl: Seq<Deed>,
    pub third: Seq<Deed>,
}

impl Stretches {
    pub open spec fn all(self) -> Seq<Deed> {
        self.first + self.vlan + self.second + self.acl + self.third
    }
}

/// The replies come from the tables, each asked only where the verdict depends
/// on it, and each stretch of deeds is the one that they call for.
pub open spec fn handled<T: Tables>(
    t: &T,
    ifindex: u32,
    p: Packet,
    replies: Replies,
    x: Stretches,
) -> bool {
    &&& vlan_rule_found(t, p, replies.vlan)
    &&& all_performed(t, ifindex, p.flow, first_effects(p, replies), x.first)
    &&& if vlan_limits(p, replies) {
        limited(t, p, replies.vlan->0.rate, x.vlan, replies.vlan_within)
    } else {
        x.vlan.len() == 0
    }
    &&& acl_reached(p, replies) ==> rule_found(t, p.flow, replies.rule)
    &&& all_performed(t, ifindex, p.flow, second_effects(p, replies), x.second)
    &&& if acl_limits(p, replies) {
        limited(t, p, acl_decision(replies.rule).1, x.acl, replies.within)
    } else {
        x.acl.len() == 0
    }
    &&& all_performed(t, ifindex, p.flow, third_effects(p, replies), x.third)
}

/// Some replies of the tables lead to the verdict and to all that was done.
pub open spec fn settled<T: Tables>(
    t: &T,
    ifindex: u32,
    p: Packet,
    deeds: Seq<Deed>,
    action: u32,
) -> bool {
    exists|replies: Replies, x: Stretches|
        {
            &&& #[trigger] handled(t, ifindex, p, replies, x)
            &&& deeds == x.all()
            &&& action == verdict(p, replies)
        }
}

/// As `settled`, for the packet that a frame was read as.
pub open spec fn frame_settled<T: Tables>(
    t: &T,
    ifindex: u32,
    packet: PacketView,
    deeds: Seq<Deed>,
    action: u32,
) -> bool {
    exists|p: Packet| p@ == packet && #[trigger] settled(t, ifindex, p, deeds, action)
}

fn handle_packet<T: Tables, S: Sink>(t: &T, w: &mut Trail<S>, ctx: &xdp_md, packet: &Packet) -> (r:
    u32)
    ensures
        extends(old(w).deeds(), final(w).deeds()),
        final(w).sink() == old(w).sink(),
        settled(
            t,
            ctx.ingress_ifindex,
            *packet,
            since(old(w).deeds(), final(w).deeds()),
            r,
        ),
{
    let ghost d0 = w.deeds();
    let mut replies = Replies { vlan: None, vlan_within: true, rule: None, within: true };
    replies.vlan = check_vlan_acl(t, packet);
    let mut log: Vec<Effect> = Vec::new();
    log_first(&mut log, packet, &replies);
    let ghost first = first_effects(*packet, replies);
    assert(log@ =~= first);
    perform(t, w, ctx, &packet.flow, &log);
    let ghost d1 = w.deeds();
    proof {
        lemma_same(d1);
    }
    if is_vlan_limited(packet, &replies) {
        if let Some(v) = replies.vlan {
            replies.vlan_within = apply_rate_limit(t, w, packet, v.rate);
        }
    }
    let ghost d2 = w.deeds();
    assert(first == first_effects(*packet, replies));
    if !is_vlan_dropped(packet, &replies) && !packet.is_fragment {
        replies.rule = acl_l4(t, packet);
    }
    let mut log: Vec<Effect> = Vec::new();
    log_second(&mut log, packet, &replies);
    let ghost second = second_effects(*packet, replies);
    assert(log@ =~= second);
    perform(t, w, ctx, &packet.flow, &log);
    let ghost d3 = w.deeds();
    proof {
        lemma_same(d3);
    }
    if is_acl_limited(packet, &replies) {
        let (_action, rate) = acl_action(replies.rule);
        replies.within = apply_rate_limit(t, w, packet, rate);
    }
    let ghost d4 = w.deeds();
    assert(first == first_effects(*packet, replies));
    assert(second == second_effects(*packet, replies));
    let mut log: Vec<Effect> = Vec::new();
    log_third(&mut log, packet, &replies);
    assert(log@ =~= third_effects(*packet, replies));
    perform(t, w, ctx, &packet.flow, &log);
    proof {
        let d5 = w.deeds();
        let x = Stretches {
            first: since(d0, d1),
            vlan: since(d1, d2),
            second: since(d2, d3),
            acl: since(d3, d4),
            third: since(d4, d5),
        };
        lemma_since(d0, d1, d2);
        lemma_since(d0, d2, d3);
        lemma_since(d0, d3, d4);
        lemma_since(d0, d4, d5);
        assert(since(d0, d5) =~= x.all());
        assert(handled(t, ctx.ingress_ifindex, *packet, replies, x));
    }
    judge(packet, &replies)
}

/// The verdict on the frame that the context points to in `mem`, or why it
/// could not be taken apart. Nothing is done for a frame that could not.
pub fn xdp_dataplane_inner<T: Tables, S: Sink>(
    t: &T,
    w: &mut Trail<S>,
    ctx: &xdp_md,
    mem: &[u8],
) -> (r: Result<u32, ParseError>)
    requires
        ctx.data_end <= mem@.len(),
    ensures
        extends(old(w).deeds(), final(w).deeds()),
        final(w).sink() == old(w).sink(),
        match (r, packet_in(mem@, ctx.data as int, ctx.data_end as int)) {
            (Ok(action), Ok(v)) => frame_settled(
                t,
                ctx.ingress_ifindex,
                v,
                since(old(w).deeds(), final(w).deeds()),
                action,
            ),
            (Err(e), Err(d)) => e == d && since(old(w).deeds(), final(w).deeds()).len() == 0,
            _ => false,
        },
{
    let ghost start = w.deeds();
    proof {
        lemma_same(start);
    }
    let parsed = parse_packet(mem, ctx.data as usize, ctx.data_end as usize);
    assert(outcome(parsed) == packet_in(mem@, ctx.data as int, ctx.data_end as int));
    match parsed {
        Ok(packet) => {
            let action: u32 = handle_packet(t, w, ctx, &packet);
            assert(settled(t, ctx.ingress_ifindex, packet, since(start, w.deeds()), action));
            assert(frame_settled(
                t,
                ctx.ingress_ifindex,
                packet@,
                since(start, w.deeds()),
                action,
            ));
            Ok(action)
        },
        Err(e) => Err(e),
    }
}

/// A frame was handled: its packet was settled; a frame of another protocol
/// passed and was counted, a broken one aborted and counted.
pub open spec fn frame_handled<T: Tables>(
    t: &T,
    ifindex: u32,
    mem: Seq<u8>,
    data: int,
    data_end: int,
    deeds: Seq<Deed>,
    action: u32,
) -> bool {
    match packet_in(mem, data, data_end) {
        Ok(v) => frame_settled(t, ifindex, v, deeds, action),
        Err(ParseError::Unsupported) => action == XDP_PASS && counted(
            t,
            CounterId::Passed,
            1,
            deeds,
        ),
        Err(ParseError::Malformed) => action == XDP_ABORTED && counted(
            t,
            CounterId::ParseError,
            1,
            deeds,
        ),
    }
}

/// The program: the verdict on a frame, and all that is done for it. A frame of
/// another protocol passes and is counted as passed; a broken one is aborted
/// and counted as a parse error.
pub fn xdp_dataplane<T: Tables, S: Sink>(t: &T, w: &mut Trail<S>, ctx: &xdp_md, mem: &[u8]) -> (
    action: u32)
    requires
        ctx.data_end <= mem@.len(),
    ensures
        extends(old(w).deeds(), final(w).deeds()),
        final(w).sink() == old(w).sink(),
        frame_handled(
            t,
            ctx.ingress_ifindex,
            mem@,
            ctx.data as int,
            ctx.data_end as int,
            since(old(w).deeds(), final(w).deeds()),
            action,
        ),
{
    let ghost start = w.deeds();
    let r = xdp_dataplane_inner(t, w, ctx, mem);
    let ghost middle = w.deeds();
    match r {
        Ok(action) => action,
        Err(ParseError::Unsupported) => {
            incr_counter(t, w, CounterId::Passed, 1);
            proof {
                lemma_since(start, middle, w.deeds());
                assert(since(start, w.deeds()) =~= since(middle, w.deeds()));
            }
            XDP_PASS
        },
        Err(ParseError::Malformed) => {
            incr_counter(t, w, CounterId::ParseError, 1);
            proof {
                lemma_since(start, middle, w.deeds());
                assert(since(start, w.deeds()) =~= since(middle, w.deeds()));
            }
            XDP_ABORTED
        },
    }
}

// ---- Laws ----

/// A bucket after packets of the given times and lengths, and how many of them
/// passed.
pub open spec fn drained(
    bucket: RateLimitValue,
    rate_pps: u32,
    arrivals: Seq<(u64, u64)>,
) -> (RateLimitValue, int)
    decreases arrivals.len(),
{
    if arrivals.len() == 0 {
        (bucket, 0)
    } else {
        let (before, passed) = drained(bucket, rate_pps, arrivals.drop_last());
        let (after, pass) = charged(before, rate_pps, arrivals.last().0, arrivals.last().1);
        (
            after,
            passed + if pass {
                1int
            } else {
                0
            },
        )
    }
}

proof fn lemma_charge_step(b: RateLimitValue, rate_pps: u32, now: u64, len: u64)
    ensures
        ({
            let (after, pass) = charged(b, rate_pps, now, len);
            let taken = if pass {
                1int
            } else {
                0
            };
            &&& after.last_refill_ns >= b.last_refill_ns
            &&& after.last_refill_ns == b.last_refill_ns || after.last_refill_ns == now
            &&& (after.tokens + taken - b.tokens) * NSEC_PER_SEC <= (after.last_refill_ns
                - b.last_refill_ns) * bucket_refill(rate_pps)
            &&& b.tokens <= bucket_size(rate_pps) ==> after.tokens + taken <= bucket_size(rate_pps)
        }),
{
    let refill = earned(b, rate_pps, now);
    let rate = bucket_refill(rate_pps);
    let passed = if now > b.last_refill_ns {
        now - b.last_refill_ns
    } else {
        0
    };
    let elapsed = if passed < MAX_REFILL_ELAPSED_NS {
        passed
    } else {
        MAX_REFILL_ELAPSED_NS as int
    };
    assert(0 <= elapsed * rate <= elapsed * 0xffff_ffff) by (nonlinear_arith)
        requires
            0 <= elapsed,
            0 <= rate <= 0xffff_ffff,
    ;
    assert(refill == (elapsed * rate) / 1_000_000_000);
    assert(elapsed * rate <= passed * rate) by (nonlinear_arith)
        requires
            elapsed <= passed,
            0 <= rate,
    ;
    let after = charged(b, rate_pps, now, len).0;
    if refill == 0 {
        assert((after.last_refill_ns - b.last_refill_ns) * rate == 0) by (nonlinear_arith)
            requires
                after.last_refill_ns == b.last_refill_ns,
        ;
    } else {
        if now <= b.last_refill_ns {
            assert(elapsed * rate == 0) by (nonlinear_arith)
                requires
                    elapsed == 0,
            ;
        }
        assert(after.last_refill_ns - b.last_refill_ns == passed);
    }
}

/// However the packets of a source are spread, a bucket that starts with
/// `bucket.tokens` lets at most that many through plus what its rate earns in
/// the time its clock has moved.
pub proof fn rate_limit_bounds_packets(
    bucket: RateLimitValue,
    rate_pps: u32,
    arrivals: Seq<(u64, u64)>,
)
    ensures
        ({
            let (after, passed) = drained(bucket, rate_pps, arrivals);
            (passed + after.tokens - bucket.tokens) * NSEC_PER_SEC <= (after.last_refill_ns
                - bucket.last_refill_ns) * bucket_refill(rate_pps)
        }),
        drained(bucket, rate_pps, arrivals).0.last_refill_ns >= bucket.last_refill_ns,
        drained(bucket, rate_pps, arrivals).0.last_refill_ns == bucket.last_refill_ns || exists|
            i: int,
        |
            0 <= i < arrivals.len() && #[trigger] arrivals[i].0 == drained(
                bucket,
                rate_pps,
                arrivals,
            ).0.last_refill_ns,
    decreases arrivals.len(),
{
    if arrivals.len() > 0 {
        let rest = arrivals.drop_last();
        let (now, len) = arrivals.last();
        rate_limit_bounds_packets(bucket, rate_pps, rest);
        let (before, passed) = drained(bucket, rate_pps, rest);
        lemma_charge_step(before, rate_pps, now, len);
        let (after, pass) = charged(before, rate_pps, now, len);
        let rate = bucket_refill(rate_pps);
        let a = before.last_refill_ns - bucket.last_refill_ns;
        let b = after.last_refill_ns - before.last_refill_ns;
        assert(a * rate + b * rate == (a + b) * rate) by (nonlinear_arith);
        if after.last_refill_ns == now {
            assert(arrivals[arrivals.len() - 1].0 == now);
        } else if before.last_refill_ns != bucket.last_refill_ns {
            let i = choose|i: int|
                0 <= i < rest.len() && #[trigger] rest[i].0 == before.last_refill_ns;
            assert(arrivals[i] == rest[i]);
        }
    }
}

/// A bucket never holds more tokens than its size, from the packet that made
/// it on.
pub proof fn bucket_never_overflows(
    rate_pps: u32,
    now: u64,
    len: u64,
    arrivals: Seq<(u64, u64)>,
)
    ensures
        drained(fresh_bucket(rate_pps, now, len), rate_pps, arrivals).0.tokens <= bucket_size(
            rate_pps,
        ),
    decreases arrivals.len(),
{
    if arrivals.len() > 0 {
        bucket_never_overflows(rate_pps, now, len, arrivals.drop_last());
        let before = drained(
            fresh_bucket(rate_pps, now, len),
            rate_pps,
            arrivals.drop_last(),
        ).0;
        lemma_charge_step(before, rate_pps, arrivals.last().0, arrivals.last().1);
    }
}

/// How often an effect occurs.
pub open spec fn times(log: Seq<Effect>, effect: Effect) -> int
    decreases log.len(),
{
    if log.len() == 0 {
        0
    } else {
        times(log.drop_last(), effect) + if log.last() == effect {
            1int
        } else {
            0
        }
    }
}

proof fn lemma_times_add(a: Seq<Effect>, b: Seq<Effect>, effect: Effect)
    ensures
        times(a + b, effect) == times(a, effect) + times(b, effect),
    decreases b.len(),
{
    if b.len() == 0 {
        assert(a + b =~= a);
    } else {
        lemma_times_add(a, b.drop_last(), effect);
        assert((a + b).drop_last() =~= a + b.drop_last());
        assert((a + b).last() == b.last());
    }
}

proof fn lemma_times_one(a: Effect, effect: Effect)
    ensures
        times(seq![a], effect) == if a == effect {
            1int
        } else {
            0
        },
{
    reveal_with_fuel(times, 2);
    assert(seq![a].drop_last() =~= Seq::empty());
}

proof fn lemma_times_two(a: Effect, b: Effect, effect: Effect)
    ensures
        times(seq![a, b], effect) == times(seq![a], effect) + times(seq![b], effect),
{
    assert(seq![a, b] =~= seq![a] + seq![b]);
    lemma_times_add(seq![a], seq![b], effect);
}

proof fn lemma_times_over_limit(p: Packet)
    ensures
        times(over_limit_effects(p), count(CounterId::Dropped, 1)) == 1,
{
    let d = count(CounterId::Dropped, 1);
    let e = over_limit_effects(p);
    assert(e =~= seq![e[0]] + seq![e[1], e[2]]);
    lemma_times_add(seq![e[0]], seq![e[1], e[2]], d);
    lemma_times_two(e[1], e[2], d);
    lemma_times_one(e[0], d);
    lemma_times_one(e[1], d);
    lemma_times_one(e[2], d);
}

proof fn lemma_times_allow()
    ensures
        times(allow_effects(), count(CounterId::Dropped, 1)) == 0,
{
    let d = count(CounterId::Dropped, 1);
    let e = allow_effects();
    lemma_times_two(e[0], e[1], d);
    lemma_times_one(e[0], d);
    lemma_times_one(e[1], d);
}

proof fn lemma_times_arrival(p: Packet)
    ensures
        times(arrival_effects(p), count(CounterId::Dropped, 1)) == 0,
{
    let d = count(CounterId::Dropped, 1);
    let e = arrival_effects(p);
    assert forall|log: Seq<Effect>|
        (forall|i: int| 0 <= i < log.len() ==> log[i] != d) implies #[trigger] times(log, d)
        == 0 by {
        lemma_times_absent(log, d);
    }
    assert(forall|i: int| 0 <= i < e.len() ==> e[i] != d);
}

proof fn lemma_times_absent(log: Seq<Effect>, effect: Effect)
    requires
        forall|i: int| 0 <= i < log.len() ==> log[i] != effect,
    ensures
        times(log, effect) == 0,
    decreases log.len(),
{
    if log.len() > 0 {
        lemma_times_absent(log.drop_last(), effect);
    }
}

proof fn lemma_times_vlan(p: Packet, replies: Replies)
    ensures
        times(vlan_effects(p, replies), count(CounterId::Dropped, 1)) == if vlan_drops(
            p,
            replies,
        ) {
            1int
        } else {
            0
        },
{
    let d = count(CounterId::Dropped, 1);
    let drop = emit(EventKind::PacketDrop, 0, 0);
    lemma_times_allow();
    lemma_times_over_limit(p);
    lemma_times_add(allow_effects(), over_limit_effects(p), d);
    lemma_times_two(d, drop, d);
    lemma_times_one(d, d);
    lemma_times_one(drop, d);
}

proof fn lemma_times_acl(p: Packet, replies: Replies)
    ensures
        times(acl_effects(p, replies), count(CounterId::Dropped, 1)) == if acl_drops(replies) {
            1int
        } else {
            0
        },
{
    let d = count(CounterId::Dropped, 1);
    let a = count(CounterId::AclDrop, 1);
    let drop = emit(EventKind::PacketDrop, 0, 0);
    let received = seq![count(CounterId::RxPackets, 1), count(CounterId::RxBytes, p.len)];
    lemma_times_two(received[0], received[1], d);
    lemma_times_one(received[0], d);
    lemma_times_one(received[1], d);
    lemma_times_allow();
    lemma_times_over_limit(p);
    lemma_times_add(received, allow_effects(), d);
    lemma_times_add(received + allow_effects(), over_limit_effects(p), d);
    lemma_times_two(a, drop, d);
    lemma_times_one(a, d);
    lemma_times_one(d, d);
    lemma_times_one(drop, d);
    assert(seq![d, a, drop] =~= seq![d] + seq![a, drop]);
    lemma_times_add(seq![d], seq![a, drop], d);
    lemma_times_add(received, seq![d, a, drop], d);
}

/// A packet is counted as dropped once if it is dropped, and not at all if it
/// passes.
pub proof fn drops_are_counted_once(p: Packet, replies: Replies)
    ensures
        verdict(p, replies) == XDP_DROP ==> times(
            effects(p, replies),
            count(CounterId::Dropped, 1),
        ) == 1,
        verdict(p, replies) != XDP_DROP ==> verdict(p, replies) == XDP_PASS && times(
            effects(p, replies),
            count(CounterId::Dropped, 1),
        ) == 0,
{
    let d = count(CounterId::Dropped, 1);
    lemma_times_arrival(p);
    lemma_times_vlan(p, replies);
    lemma_times_acl(p, replies);
    lemma_times_add(arrival_effects(p), vlan_effects(p, replies), d);
    lemma_times_add(
        arrival_effects(p) + vlan_effects(p, replies),
        acl_effects(p, replies),
        d,
    );
}

/// A drop by the L4 ACL is counted once as such, and nothing else is.
pub proof fn acl_drops_are_counted_once(p: Packet, replies: Replies)
    ensures
        times(effects(p, replies), count(CounterId::AclDrop, 1)) == if !vlan_drops(p, replies)
            && !p.is_fragment && acl_decision(replies.rule).0 == AclAction::Drop {
            1int
        } else {
            0
        },
{
    let a = count(CounterId::AclDrop, 1);
    let d = count(CounterId::Dropped, 1);
    let drop = emit(EventKind::PacketDrop, 0, 0);
    let before = arrival_effects(p) + vlan_effects(p, replies);
    let acl = acl_effects(p, replies);
    assert(forall|i: int| 0 <= i < before.len() ==> before[i] != a);
    lemma_times_absent(before, a);
    lemma_times_add(before, acl, a);
    if acl_decision(replies.rule).0 == AclAction::Drop {
        let received = seq![count(CounterId::RxPackets, 1), count(CounterId::RxBytes, p.len)];
        lemma_times_absent(received, a);
        lemma_times_two(a, drop, a);
        lemma_times_one(a, a);
        lemma_times_one(drop, a);
        lemma_times_one(d, a);
        assert(seq![d, a, drop] =~= seq![d] + seq![a, drop]);
        lemma_times_add(seq![d], seq![a, drop], a);
        lemma_times_add(received, seq![d, a, drop], a);
    } else {
        assert(forall|i: int| 0 <= i < acl.len() ==> acl[i] != a);
        lemma_times_absent(acl, a);
    }
}

/// A packet that no rule speaks of passes, as long as it is within the global
/// rate.
pub proof fn unmatched_packet_passes(p: Packet, replies: Replies)
    requires
        vlan_rule_of(p, replies) is None,
        replies.rule is None,
        replies.within,
    ensures
        verdict(p, replies) == XDP_PASS,
{
}

/// A packet that a rule drops is dropped, but for a fragment that no VLAN rule
/// drops.
pub proof fn dropping_rule_drops(p: Packet, replies: Replies)
    requires
        vlan_rule_of(p, replies) matches Some(v) && v.action == AclAction::Drop || (!p.is_fragment
            && replies.rule is Some && replies.rule->0.action == AclAction::Drop),
    ensures
        verdict(p, replies) == XDP_DROP,
{
}

/// Of two lookups in the L4 ACL the first has the longer prefix, or one as long
/// and more bytes of the source.
pub proof fn specific_rules_come_first(family: u8, a: int, b: int)
    requires
        0 <= a < b < 25,
    ensures
        probe_prefix(a / 5) > probe_prefix(b / 5) || (probe_prefix(a / 5) == probe_prefix(b / 5)
            && probe_source_bytes(family, a % 5) > probe_source_bytes(family, b % 5)),
{
    if a / 5 == b / 5 {
        assert(a % 5 < b % 5);
    } else {
        assert(a / 5 < b / 5);
    }
}

} // verus!
