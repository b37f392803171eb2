//! What the packet program must do, told by the keys it asks for, the buckets
//! it stores, the counters it moves and its verdict.
use vstd::prelude::*;

use crate::maps::{
    AclAction, EventKind, FlowKey, L4AclKey, L4AclValue, Packet, RateLimitKey, RateLimitValue,
    VlanAclKey, VlanAclValue, VlanTag,
};
use crate::frames::{
    ethernet, has_fragment, ipv4_frame_is_read_back, ipv6_frame_is_read_back, net_ipv6,
    other_frames_are_unsupported, tags_fit, Extension, Header4, Segment,
};
use crate::packet::packet_in;
use crate::trail::Deed;
use crate::xdp::{
    all_performed, charged, counted, emitted, frame_handled, frame_settled, handled, is_probe,
    is_vlan_key, limited, limiting, performed, probed, rule_found, settled, vlan_asked,
    vlan_rule_found, Effect, Replies, Stretches, Tables,
};

verus! {

// ---- The most specific rule ----

/// The lengths of prefixes that are looked for.
pub open spec fn is_prefix(prefix: u32) -> bool {
    prefix == 352 || prefix == 336 || prefix == 320 || prefix == 304 || prefix == 272
}

/// How many bytes of the source are kept: of an IPv6 address all, 8, 4, 2 or 1,
/// of an IPv4 address, which stands in the last four, all to none.
pub open spec fn is_kept(family: u8, kept: int) -> bool {
    if family == 6 {
        kept == 16 || kept == 8 || kept == 4 || kept == 2 || kept == 1
    } else {
        12 <= kept <= 16
    }
}

/// The key is that of the flow with a prefix and with the first `kept` bytes of
/// its source: the destination port counts from 320 bits on, the source port
/// from 336 on, and with 272 bits neither the protocol nor the last three bytes
/// of the destination do.
pub open spec fn key_of_flow(key: L4AclKey, flow: FlowKey, prefix: u32, kept: int) -> bool {
    &&& key.prefix_len == prefix
    &&& key.family == flow.family
    &&& forall|i: int|
        0 <= i < 16 ==> #[trigger] key.src_addr@[i] == if i < kept {
            flow.src_addr@[i]
        } else {
            0
        }
    &&& forall|i: int|
        0 <= i < 16 ==> #[trigger] key.dst_addr@[i] == if prefix > 272 || i < 13 {
            flow.dst_addr@[i]
        } else {
            0
        }
    &&& key.ip_proto == if prefix > 272 {
        flow.ip_proto
    } else {
        0
    }
    &&& key.dst_port == if prefix >= 320 {
        flow.dst_port
    } else {
        0
    }
    &&& key.src_port == if prefix >= 336 {
        flow.src_port
    } else {
        0
    }
    &&& key.tcp_flags_mask == 0 && key.tcp_flags_value == 0 && key._pad == 0 && key._pad2 == 0
}

/// The ACL answered for the key of the flow.
pub open spec fn rule_answer<T: Tables>(
    t: &T,
    flow: FlowKey,
    prefix: u32,
    kept: int,
    reply: Option<L4AclValue>,
) -> bool {
    exists|key: L4AclKey|
        key_of_flow(key, flow, prefix, kept) && #[trigger] call_ensures(T::rule, (t, key), reply)
}

/// The rule is the answer for one of the flow's keys, and for every key with a
/// longer prefix, or as long a one and more of the source, there was none.
pub open spec fn best_rule<T: Tables>(t: &T, flow: FlowKey, found: Option<L4AclValue>) -> bool {
    match found {
        Some(v) => exists|prefix: u32, kept: int|
            {
                &&& is_prefix(prefix)
                &&& is_kept(flow.family, kept)
                &&& #[trigger] rule_answer(t, flow, prefix, kept, Some(v))
                &&& nothing_better(t, flow, prefix, kept)
            },
        None => nothing_better(t, flow, 0, 0),
    }
}

/// There was no answer for any more specific key of the flow.
pub open spec fn nothing_better<T: Tables>(t: &T, flow: FlowKey, prefix: u32, kept: int) -> bool {
    forall|p: u32, k: int|
        is_prefix(p) && is_kept(flow.family, k) && (p > prefix || p == prefix && k > kept)
            ==> #[trigger] rule_answer(t, flow, p, k, None)
}

spec fn level_of(prefix: u32) -> int {
    if prefix == 352 {
        0
    } else if prefix == 336 {
        1
    } else if prefix == 320 {
        2
    } else if prefix == 304 {
        3
    } else {
        4
    }
}

spec fn prefix_of(level: int) -> u32 {
    if level == 0 {
        352
    } else if level == 1 {
        336
    } else if level == 2 {
        320
    } else if level == 3 {
        304
    } else {
        272
    }
}

spec fn mask_of(family: u8, kept: int) -> int {
    if family == 6 {
        if kept == 16 {
            0
        } else if kept == 8 {
            1
        } else if kept == 4 {
            2
        } else if kept == 2 {
            3
        } else {
            4
        }
    } else {
        16 - kept
    }
}

spec fn kept_of(family: u8, m: int) -> int {
    if family == 6 {
        if m == 0 {
            16
        } else if m == 1 {
            8
        } else if m == 2 {
            4
        } else if m == 3 {
            2
        } else {
            1
        }
    } else {
        16 - m
    }
}

proof fn lemma_probe<T: Tables>(t: &T, flow: FlowKey, n: int, reply: Option<L4AclValue>)
    requires
        0 <= n < 25,
        probed(t, flow, n, reply),
    ensures
        rule_answer(t, flow, prefix_of(n / 5), kept_of(flow.family, n % 5), reply),
        is_prefix(prefix_of(n / 5)),
        is_kept(flow.family, kept_of(flow.family, n % 5)),
{
    let key = choose|key: L4AclKey|
        is_probe(key, flow, n / 5, n % 5) && #[trigger] call_ensures(T::rule, (t, key), reply);
    assert(key_of_flow(key, flow, prefix_of(n / 5), kept_of(flow.family, n % 5)));
}

/// Of all rules that the ACL answers with for a packet, the one that is found
/// is the one with the longest prefix, and among those the one that keeps most
/// of the source: a rule for one host beats a rule for its network, and that one
/// a rule for everybody.
pub proof fn most_specific_rule_is_found<T: Tables>(
    t: &T,
    flow: FlowKey,
    found: Option<L4AclValue>,
)
    requires
        rule_found(t, flow, found),
    ensures
        best_rule(t, flow, found),
{
    let n = match found {
        Some(v) => choose|n: int|
            {
                &&& 0 <= n < 25
                &&& #[trigger] probed(t, flow, n, Some(v))
                &&& forall|i: int| 0 <= i < n ==> #[trigger] probed(t, flow, i, None)
            },
        None => 25,
    };
    let prefix = if n == 25 {
        0u32
    } else {
        prefix_of(n / 5)
    };
    let kept = if n == 25 {
        0
    } else {
        kept_of(flow.family, n % 5)
    };
    assert forall|p: u32, k: int|
        is_prefix(p) && is_kept(flow.family, k) && (p > prefix || p == prefix && k
            > kept) implies #[trigger] rule_answer(t, flow, p, k, None) by {
        let i = 5 * level_of(p) + mask_of(flow.family, k);
        assert(i / 5 == level_of(p) && i % 5 == mask_of(flow.family, k));
        assert(i < n) by {
            if n < 25 {
                if p > prefix {
                    assert(level_of(p) < n / 5);
                } else {
                    assert(mask_of(flow.family, k) < n % 5);
                }
            }
        }
        assert(probed(t, flow, i, None));
        lemma_probe(t, flow, i, None);
    }
    if n < 25 {
        lemma_probe(t, flow, n, found);
    }
}

// ---- The rule of the tags ----

/// The VLAN ACL answered for a pair of tags.
pub open spec fn tag_answer<T: Tables>(
    t: &T,
    outer: u16,
    inner: u16,
    reply: Option<VlanAclValue>,
) -> bool {
    exists|key: VlanAclKey|
        {
            &&& key.outer_vlan == outer
            &&& key.inner_vlan == inner
            &&& forall|i: int| 0 <= i < 4 ==> #[trigger] key._pad@[i] == 0
            &&& #[trigger] call_ensures(T::vlan_rule, (t, key), reply)
        }
}

/// The rule of a packet's tags: that of the outer tag alone, and where there is
/// none and the packet has two, that of both; an untagged packet has none.
pub open spec fn tag_rule<T: Tables>(t: &T, p: Packet, found: Option<VlanAclValue>) -> bool {
    if p.vlan_depth == 0 {
        found is None
    } else {
        exists|first: Option<VlanAclValue>|
            {
                &&& #[trigger] tag_answer(t, p.vlan@[0].id, 0, first)
                &&& if first is Some {
                    found == first
                } else if p.vlan_depth == 1 {
                    found is None
                } else {
                    tag_answer(t, p.vlan@[0].id, p.vlan@[1].id, found)
                }
            }
    }
}

proof fn lemma_tag_answer<T: Tables>(t: &T, outer: u16, inner: u16, reply: Option<VlanAclValue>)
    requires
        vlan_asked(t, outer, inner, reply),
    ensures
        tag_answer(t, outer, inner, reply),
{
    let key = choose|key: VlanAclKey|
        is_vlan_key(key, outer, inner) && #[trigger] call_ensures(T::vlan_rule, (t, key), reply);
    assert(forall|i: int| 0 <= i < 4 ==> #[trigger] key._pad@[i] == 0);
}

proof fn lemma_tag_rule<T: Tables>(t: &T, p: Packet, found: Option<VlanAclValue>)
    requires
        vlan_rule_found(t, p, found),
    ensures
        tag_rule(t, p, found),
{
    if p.vlan_depth > 0 {
        let outer = p.vlan@[0].id;
        if found is Some && vlan_asked(t, outer, 0, found) {
            lemma_tag_answer(t, outer, 0, found);
        } else {
            lemma_tag_answer(t, outer, 0, None);
            if p.vlan_depth >= 2 {
                lemma_tag_answer(t, outer, p.vlan@[1].id, found);
            }
        }
    }
}

// ---- Buckets ----

/// The size of a bucket: 256 times a rule's own rate, or 65536 tokens.
pub open spec fn capacity(rate: u32) -> int {
    if rate > 0 {
        256 * rate
    } else {
        65536
    }
}

/// Tokens earned in a second: a rule's own rate, or 64000.
pub open spec fn income(rate: u32) -> int {
    if rate > 0 {
        rate as int
    } else {
        64000
    }
}

/// Nanoseconds since the last refill, one second at most.
pub open spec fn waited(b: RateLimitValue, now: u64) -> int {
    if now <= b.last_refill_ns {
        0
    } else if now - b.last_refill_ns >= 1_000_000_000 {
        1_000_000_000
    } else {
        now - b.last_refill_ns
    }
}

/// `n` whole tokens are earned in `ns` nanoseconds.
pub open spec fn earns(ns: int, rate: u32, n: int) -> bool {
    n * 1_000_000_000 <= ns * income(rate) < (n + 1) * 1_000_000_000
}

/// A bucket `b` becomes `after` with a packet: whole tokens are added up to the
/// bucket's size, the time moves on only with them, and one is taken where
/// there is one, which is when the packet passes.
pub open spec fn takes_token(
    b: RateLimitValue,
    rate: u32,
    now: u64,
    len: u64,
    after: RateLimitValue,
    pass: bool,
) -> bool {
    exists|n: int|
        {
            &&& #[trigger] earns(waited(b, now), rate, n)
            &&& {
                let held = if n == 0 {
                    b.tokens as int
                } else if b.tokens + n < capacity(rate) {
                    b.tokens + n
                } else {
                    capacity(rate)
                };
                &&& pass == (held >= 1)
                &&& after.tokens == if pass {
                    held - 1
                } else {
                    held
                }
            }
            &&& after.last_refill_ns == if n == 0 {
                b.last_refill_ns
            } else {
                now
            }
            &&& after.packet_count == b.packet_count + 1 || b.packet_count == u64::MAX
                && after.packet_count == u64::MAX
            &&& after.byte_count == b.byte_count + len || b.byte_count + len > u64::MAX
                && after.byte_count == u64::MAX
        }
}

/// A bucket is charged as `takes_token` says.
pub proof fn charging_takes_a_token(b: RateLimitValue, rate: u32, now: u64, len: u64)
    ensures
        ({
            let (after, pass) = charged(b, rate, now, len);
            takes_token(b, rate, now, len, after, pass)
        }),
{
    let ns = waited(b, now);
    let r = income(rate);
    let n = (ns * r) / 1_000_000_000;
    assert(0 <= ns * r <= 1_000_000_000 * 0xffff_ffff) by (nonlinear_arith)
        requires
            0 <= ns <= 1_000_000_000,
            0 <= r <= 0xffff_ffff,
    ;
    assert(earns(ns, rate, n));
    let (after, pass) = charged(b, rate, now, len);
    assert(takes_token(b, rate, now, len, after, pass));
}

/// A bucket that is charged a second or more after its last refill holds, before
/// the packet's token is taken, at least what it held and a second's income, or
/// all it can hold: its own rate for a rule with one, 64000 without. So a packet
/// a second after the last refill passes.
pub proof fn a_second_earns_a_second_of_tokens(b: RateLimitValue, rate: u32, now: u64, len: u64)
    requires
        now >= b.last_refill_ns + 1_000_000_000,
    ensures
        ({
            let (after, pass) = charged(b, rate, now, len);
            let second = if rate > 0 {
                rate as int
            } else {
                64000
            };
            let size = if rate > 0 {
                256 * rate
            } else {
                65536
            };
            &&& pass
            &&& after.tokens + 1 == if b.tokens + second < size {
                b.tokens + second
            } else {
                size
            }
            &&& after.last_refill_ns == now
        }),
{
    charging_takes_a_token(b, rate, now, len);
}

/// A bucket with a token lets a packet pass at any time, and one without any
/// lets none pass before the first token is earned.
pub proof fn a_token_is_a_packet(b: RateLimitValue, rate: u32, now: u64, len: u64)
    ensures
        b.tokens >= 1 ==> charged(b, rate, now, len).1,
        b.tokens == 0 && now <= b.last_refill_ns ==> !charged(b, rate, now, len).1,
        b.tokens == 0 && now < b.last_refill_ns + 1_000_000_000 && (now - b.last_refill_ns) * (if rate
            > 0 {
            rate as int
        } else {
            64000
        }) < 1_000_000_000 ==> !charged(b, rate, now, len).1,
{
    charging_takes_a_token(b, rate, now, len);
    let (after, pass) = charged(b, rate, now, len);
    let n = choose|n: int| #[trigger] earns(waited(b, now), rate, n);
    let r = income(rate);
    let ns = waited(b, now);
    assert(0 <= ns * r) by (nonlinear_arith)
        requires
            0 <= ns,
            0 <= r,
    ;
    if now <= b.last_refill_ns {
        assert(ns * r == 0) by (nonlinear_arith)
            requires
                ns == 0,
        ;
    }
}

/// The bucket of the packet's source was looked up and stored once: under the
/// number 1 for a rule with a rate, under 0 for the global limit. A new one is
/// full but for one token.
pub open spec fn bucket_charged<T: Tables>(
    t: &T,
    p: Packet,
    rate: u32,
    deeds: Seq<Deed>,
    pass: bool,
) -> bool {
    &&& deeds.len() == 1
    &&& deeds[0] matches Deed::Bucket { key, bucket, reply }
    &&& key.addr@ == p.flow.src_addr@
    &&& key.family == p.flow.family
    &&& key.rule_id == if rate > 0 {
        1u32
    } else {
        0
    }
    &&& exists|now: u64, found: Option<RateLimitValue>|
        {
            &&& #[trigger] call_ensures(T::now, (t,), now)
            &&& #[trigger] call_ensures(T::bucket, (t, key), found)
            &&& match found {
                None => {
                    &&& bucket.tokens == capacity(rate) - 1
                    &&& bucket.last_refill_ns == now
                    &&& bucket.packet_count == 1
                    &&& bucket.byte_count == p.len
                    &&& pass == (reply >= 0)
                },
                Some(b) => takes_token(b, rate, now, p.len, bucket, pass),
            }
        }
}

proof fn lemma_bucket_charged<T: Tables>(
    t: &T,
    p: Packet,
    rate: u32,
    deeds: Seq<Deed>,
    pass: bool,
)
    requires
        limited(t, p, rate, deeds, pass),
    ensures
        bucket_charged(t, p, rate, deeds, pass),
{
    let (key, now, found, reply) = choose|
        key: RateLimitKey,
        now: u64,
        found: Option<RateLimitValue>,
        reply: i64,
    |
        {
            &&& crate::xdp::is_bucket_key(key, p.flow, rate)
            &&& #[trigger] call_ensures(T::now, (t,), now)
            &&& #[trigger] call_ensures(T::bucket, (t, key), found)
            &&& deeds == seq![(#[trigger] limiting(key, found, rate, now, p.len, reply)).0]
            &&& pass == limiting(key, found, rate, now, p.len, reply).1
        };
    if let Some(b) = found {
        charging_takes_a_token(b, rate, now, p.len);
    }
    assert(call_ensures(T::now, (t,), now) && call_ensures(T::bucket, (t, key), found));
}

// ---- The verdict ----

/// The buckets that were stored, in order.
pub open spec fn stored(deeds: Seq<Deed>) -> Seq<Deed>
    decreases deeds.len(),
{
    if deeds.len() == 0 {
        Seq::empty()
    } else {
        let before = stored(deeds.drop_last());
        if deeds.last() is Bucket {
            before.push(deeds.last())
        } else {
            before
        }
    }
}

proof fn lemma_stored_add(a: Seq<Deed>, b: Seq<Deed>)
    ensures
        stored(a + b) == stored(a) + stored(b),
    decreases b.len(),
{
    if b.len() == 0 {
        assert(a + b =~= a);
        assert(stored(a) + stored(b) =~= stored(a));
    } else {
        lemma_stored_add(a, b.drop_last());
        assert((a + b).drop_last() =~= a + b.drop_last());
        assert((a + b).last() == b.last());
        assert(stored(a + b) =~= stored(a) + stored(b));
    }
}

proof fn lemma_stored_none(deeds: Seq<Deed>)
    requires
        forall|i: int| 0 <= i < deeds.len() ==> !((#[trigger] deeds[i]) is Bucket),
    ensures
        stored(deeds) == Seq::<Deed>::empty(),
    decreases deeds.len(),
{
    if deeds.len() > 0 {
        assert forall|i: int| 0 <= i < deeds.drop_last().len() implies !((
        #[trigger] deeds.drop_last()[i]) is Bucket) by {
            assert(deeds.drop_last()[i] == deeds[i]);
        }
        lemma_stored_none(deeds.drop_last());
        assert(deeds.last() == deeds[deeds.len() - 1]);
    }
}

proof fn lemma_effects_store_nothing<T: Tables>(
    t: &T,
    ifindex: u32,
    flow: FlowKey,
    effects: Seq<Effect>,
    deeds: Seq<Deed>,
)
    requires
        all_performed(t, ifindex, flow, effects, deeds),
    ensures
        stored(deeds) == Seq::<Deed>::empty(),
    decreases effects.len(),
{
    if effects.len() > 0 {
        let k = choose|k: int|
            {
                &&& 0 <= k <= deeds.len()
                &&& all_performed(t, ifindex, flow, effects.drop_last(), #[trigger] deeds.take(k))
                &&& performed(t, ifindex, flow, effects.last(), deeds.skip(k))
            };
        lemma_effects_store_nothing(t, ifindex, flow, effects.drop_last(), deeds.take(k));
        let last = deeds.skip(k);
        assert(forall|i: int| 0 <= i < last.len() ==> !((#[trigger] last[i]) is Bucket));
        lemma_stored_none(last);
        lemma_stored_add(deeds.take(k), last);
        assert(deeds.take(k) + last =~= deeds);
    }
}

proof fn lemma_stored_one(deeds: Seq<Deed>)
    requires
        deeds.len() == 1,
        deeds[0] is Bucket,
    ensures
        stored(deeds) == deeds,
{
    reveal_with_fuel(stored, 2);
    assert(deeds.drop_last() =~= Seq::empty());
    assert(stored(deeds) =~= deeds);
}

/// The rule of the tags refuses the packet: it drops, or has a rate that the
/// packet is over.
pub open spec fn tag_refuses(tag: Option<VlanAclValue>, within: bool) -> bool {
    tag matches Some(v) && (v.action == AclAction::Drop || v.action == AclAction::Allow && v.rate
        > 0 && !within)
}

/// What the two rules make of a packet: 1 drops it, 2 lets it pass.
pub open spec fn decided(
    fragment: bool,
    tag: Option<VlanAclValue>,
    tag_within: bool,
    rule: Option<L4AclValue>,
    within: bool,
) -> u32 {
    if tag_refuses(tag, tag_within) {
        1
    } else if fragment {
        2
    } else {
        match rule {
            None => if within {
                2
            } else {
                1
            },
            Some(v) => match v.action {
                AclAction::Drop => 1,
                AclAction::Allow => if within {
                    2
                } else {
                    1
                },
                _ => 2,
            },
        }
    }
}

/// The rule of the tags was found, and where it allows with a rate of its own,
/// the bucket of that rate charged.
pub open spec fn tag_stage<T: Tables>(
    t: &T,
    p: Packet,
    tag: Option<VlanAclValue>,
    within: bool,
    buckets: Seq<Deed>,
) -> bool {
    &&& tag_rule(t, p, tag)
    &&& if tag is Some && tag->0.action == AclAction::Allow && tag->0.rate > 0 {
        bucket_charged(t, p, tag->0.rate, buckets, within)
    } else {
        buckets.len() == 0
    }
}

/// Unless the tags refuse the packet or it is a fragment, the most specific rule
/// was found, and where it allows, or there is none, a bucket charged: that of
/// the rule's rate, or the global one.
pub open spec fn rule_stage<T: Tables>(
    t: &T,
    p: Packet,
    skip: bool,
    rule: Option<L4AclValue>,
    within: bool,
    buckets: Seq<Deed>,
) -> bool {
    if skip {
        buckets.len() == 0
    } else {
        &&& best_rule(t, p.flow, rule)
        &&& match rule {
            None => bucket_charged(t, p, 0, buckets, within),
            Some(v) => if v.action == AclAction::Allow {
                bucket_charged(t, p, v.rate, buckets, within)
            } else {
                buckets.len() == 0
            },
        }
    }
}

/// The two stages, the buckets that they stored, and the verdict.
pub open spec fn two_stages<T: Tables>(
    t: &T,
    p: Packet,
    tag: Option<VlanAclValue>,
    tag_within: bool,
    rule: Option<L4AclValue>,
    within: bool,
    first: Seq<Deed>,
    second: Seq<Deed>,
    deeds: Seq<Deed>,
    action: u32,
) -> bool {
    &&& tag_stage(t, p, tag, tag_within, first)
    &&& rule_stage(t, p, tag_refuses(tag, tag_within) || p.is_fragment, rule, within, second)
    &&& stored(deeds) == first + second
    &&& action == decided(p.is_fragment, tag, tag_within, rule, within)
}

/// The program's verdict on a packet follows from the rule of its tags, the most
/// specific rule of the ACL, and the buckets of its source, which are all that
/// is stored.
pub proof fn rules_and_buckets_decide<T: Tables>(
    t: &T,
    ifindex: u32,
    p: Packet,
    deeds: Seq<Deed>,
    action: u32,
)
    requires
        settled(t, ifindex, p, deeds, action),
    ensures
        exists|
            tag: Option<VlanAclValue>,
            tag_within: bool,
            rule: Option<L4AclValue>,
            within: bool,
            first: Seq<Deed>,
            second: Seq<Deed>,
        | #[trigger]
            two_stages(t, p, tag, tag_within, rule, within, first, second, deeds, action),
{
    let (replies, x) = choose|replies: Replies, x: Stretches|
        {
            &&& #[trigger] handled(t, ifindex, p, replies, x)
            &&& deeds == x.all()
            &&& action == crate::xdp::verdict(p, replies)
        };
    lemma_two_stages(t, ifindex, p, replies, x);
}

proof fn lemma_two_stages<T: Tables>(
    t: &T,
    ifindex: u32,
    p: Packet,
    replies: Replies,
    x: Stretches,
)
    requires
        handled(t, ifindex, p, replies, x),
    ensures
        two_stages(
            t,
            p,
            replies.vlan,
            replies.vlan_within,
            replies.rule,
            replies.within,
            x.vlan,
            x.acl,
            x.all(),
            crate::xdp::verdict(p, replies),
        ),
{
    lemma_tag_rule(t, p, replies.vlan);
    let skip = tag_refuses(replies.vlan, replies.vlan_within) || p.is_fragment;
    if !skip {
        most_specific_rule_is_found(t, p.flow, replies.rule);
    }
    if x.vlan.len() > 0 {
        lemma_bucket_charged(t, p, replies.vlan->0.rate, x.vlan, replies.vlan_within);
        lemma_stored_one(x.vlan);
    } else {
        assert(x.vlan =~= Seq::empty());
    }
    if x.acl.len() > 0 {
        lemma_bucket_charged(
            t,
            p,
            crate::xdp::acl_decision(replies.rule).1,
            x.acl,
            replies.within,
        );
        lemma_stored_one(x.acl);
    } else {
        assert(x.acl =~= Seq::empty());
    }
    lemma_effects_store_nothing(
        t,
        ifindex,
        p.flow,
        crate::xdp::first_effects(p, replies),
        x.first,
    );
    lemma_effects_store_nothing(
        t,
        ifindex,
        p.flow,
        crate::xdp::second_effects(p, replies),
        x.second,
    );
    lemma_effects_store_nothing(
        t,
        ifindex,
        p.flow,
        crate::xdp::third_effects(p, replies),
        x.third,
    );
    lemma_stored_add(x.first, x.vlan);
    lemma_stored_add(x.first + x.vlan, x.second);
    lemma_stored_add(x.first + x.vlan + x.second, x.acl);
    lemma_stored_add(x.first + x.vlan + x.second + x.acl, x.third);
    assert(stored(x.all()) =~= x.vlan + x.acl);
}

// ---- Bursts ----

/// The bucket of a number that was stored last among some.
pub open spec fn newest(buckets: Seq<Deed>, id: u32) -> Option<RateLimitValue>
    decreases buckets.len(),
{
    if buckets.len() == 0 {
        None
    } else {
        match buckets.last() {
            Deed::Bucket { key, bucket, .. } => if key.rule_id == id {
                Some(bucket)
            } else {
                newest(buckets.drop_last(), id)
            },
            _ => newest(buckets.drop_last(), id),
        }
    }
}

/// The bucket of a number that the runs left.
pub open spec fn left_by(runs: Seq<Seq<Deed>>, id: u32) -> Option<RateLimitValue>
    decreases runs.len(),
{
    if runs.len() == 0 {
        None
    } else {
        match newest(stored(runs.last()), id) {
            Some(b) => Some(b),
            None => left_by(runs.drop_last(), id),
        }
    }
}

/// How many of the packets passed.
pub open spec fn passes(actions: Seq<u32>) -> int
    decreases actions.len(),
{
    if actions.len() == 0 {
        0
    } else {
        passes(actions.drop_last()) + if actions.last() == 2 {
            1int
        } else {
            0
        }
    }
}

/// The program saw the packets one after another, all of one source and at one
/// instant; a bucket of the source that it looks up is the one it stored last,
/// and none at first, and every bucket could be stored.
pub open spec fn burst<T: Tables>(
    ts: Seq<T>,
    ifindex: u32,
    packets: Seq<Packet>,
    runs: Seq<Seq<Deed>>,
    actions: Seq<u32>,
    src: Seq<u8>,
    family: u8,
    instant: u64,
    id: u32,
) -> bool {
    &&& ts.len() == packets.len() == runs.len() == actions.len()
    &&& forall|i: int|
        0 <= i < ts.len() ==> settled(
            &#[trigger] ts[i],
            ifindex,
            packets[i],
            runs[i],
            actions[i],
        )
    &&& forall|i: int|
        0 <= i < ts.len() ==> (#[trigger] packets[i]).flow.src_addr@ == src
            && packets[i].flow.family == family
    &&& forall|i: int, now: u64|
        0 <= i < ts.len() && #[trigger] call_ensures(T::now, (&ts[i],), now) ==> now == instant
    &&& forall|i: int, key: RateLimitKey, found: Option<RateLimitValue>|
        0 <= i < ts.len() && #[trigger] call_ensures(T::bucket, (&ts[i], key), found)
            && key.addr@ == src && key.family == family && key.rule_id == id ==> found == left_by(
            runs.take(i),
            id,
        )
    &&& forall|i: int, j: int|
        0 <= i < ts.len() && 0 <= j < stored(runs[i]).len() ==> match #[trigger] stored(runs[i])[j] {
            Deed::Bucket { reply, .. } => reply >= 0,
            _ => true,
        }
}

/// After a packet of a burst: what the bucket holds and what was let through
/// are together what the bucket can hold.
spec fn balance(left: Option<RateLimitValue>, let_through: int, rate: u32, instant: u64) -> bool {
    match left {
        None => let_through == 0,
        Some(b) => b.tokens + let_through == capacity(rate) && b.last_refill_ns == instant,
    }
}

proof fn lemma_no_time_no_tokens(
    b: RateLimitValue,
    rate: u32,
    now: u64,
    len: u64,
    after: RateLimitValue,
    pass: bool,
)
    requires
        takes_token(b, rate, now, len, after, pass),
        b.last_refill_ns == now,
    ensures
        pass == (b.tokens >= 1),
        after.tokens == if pass {
            b.tokens - 1
        } else {
            b.tokens as int
        },
        after.last_refill_ns == now,
{
    let r = income(rate);
    assert(0 * r == 0) by (nonlinear_arith);
}

/// Of a burst of packets of one source, tagged with a VLAN whose rule allows
/// with a rate, at most 256 times the rate pass.
pub proof fn vlan_rate_bounds_a_burst<T: Tables>(
    ts: Seq<T>,
    ifindex: u32,
    packets: Seq<Packet>,
    runs: Seq<Seq<Deed>>,
    actions: Seq<u32>,
    src: Seq<u8>,
    family: u8,
    instant: u64,
    outer: u16,
    rate: u32,
)
    requires
        rate > 0,
        burst(ts, ifindex, packets, runs, actions, src, family, instant, 1),
        forall|i: int|
            0 <= i < packets.len() ==> (#[trigger] packets[i]).vlan_depth >= 1
                && packets[i].vlan@[0].id == outer,
        forall|i: int, key: VlanAclKey, reply: Option<VlanAclValue>|
            0 <= i < ts.len() && #[trigger] call_ensures(T::vlan_rule, (&ts[i], key), reply)
                && key.outer_vlan == outer && key.inner_vlan == 0 ==> reply == Some(
                VlanAclValue { action: AclAction::Allow, rate },
            ),
        forall|i: int, key: L4AclKey, v: L4AclValue|
            0 <= i < ts.len() && #[trigger] call_ensures(T::rule, (&ts[i], key), Some(v)) ==> v.rate
                == 0,
    ensures
        passes(actions) <= 256 * rate,
{
    lemma_vlan_burst(
        ts,
        ifindex,
        packets,
        runs,
        actions,
        src,
        family,
        instant,
        outer,
        rate,
        actions.len() as int,
    );
    assert(actions.take(actions.len() as int) =~= actions);
}

proof fn lemma_vlan_burst<T: Tables>(
    ts: Seq<T>,
    ifindex: u32,
    packets: Seq<Packet>,
    runs: Seq<Seq<Deed>>,
    actions: Seq<u32>,
    src: Seq<u8>,
    family: u8,
    instant: u64,
    outer: u16,
    rate: u32,
    n: int,
)
    requires
        rate > 0,
        burst(ts, ifindex, packets, runs, actions, src, family, instant, 1),
        forall|i: int|
            0 <= i < packets.len() ==> (#[trigger] packets[i]).vlan_depth >= 1
                && packets[i].vlan@[0].id == outer,
        forall|i: int, key: VlanAclKey, reply: Option<VlanAclValue>|
            0 <= i < ts.len() && #[trigger] call_ensures(T::vlan_rule, (&ts[i], key), reply)
                && key.outer_vlan == outer && key.inner_vlan == 0 ==> reply == Some(
                VlanAclValue { action: AclAction::Allow, rate },
            ),
        forall|i: int, key: L4AclKey, v: L4AclValue|
            0 <= i < ts.len() && #[trigger] call_ensures(T::rule, (&ts[i], key), Some(v)) ==> v.rate
                == 0,
        0 <= n <= actions.len(),
    ensures
        passes(actions.take(n)) <= capacity(rate),
        exists|through: int|
            {
                &&& #[trigger] balance(left_by(runs.take(n), 1), through, rate, instant)
                &&& passes(actions.take(n)) <= through <= capacity(rate)
            },
    decreases n,
{
    if n == 0 {
        assert(runs.take(0) =~= Seq::empty());
        assert(actions.take(0) =~= Seq::empty());
        assert(balance(left_by(runs.take(0), 1), 0, rate, instant));
    } else {
        let i = n - 1;
        lemma_vlan_burst(
            ts,
            ifindex,
            packets,
            runs,
            actions,
            src,
            family,
            instant,
            outer,
            rate,
            i,
        );
        let through = choose|through: int|
            {
                &&& #[trigger] balance(left_by(runs.take(i), 1), through, rate, instant)
                &&& passes(actions.take(i)) <= through <= capacity(rate)
            };
        assert(runs.take(n).drop_last() =~= runs.take(i));
        assert(actions.take(n).drop_last() =~= actions.take(i));
        let t = ts[i];
        let p = packets[i];
        assert(settled(&ts[i], ifindex, p, runs[i], actions[i]));
        rules_and_buckets_decide(&t, ifindex, p, runs[i], actions[i]);
        let (tag, tag_within, rule, within, first, second) = choose|
            tag: Option<VlanAclValue>,
            tag_within: bool,
            rule: Option<L4AclValue>,
            within: bool,
            first: Seq<Deed>,
            second: Seq<Deed>,
        | #[trigger]
            two_stages(&t, p, tag, tag_within, rule, within, first, second, runs[i], actions[i]);
        assert(tag == Some(VlanAclValue { action: AclAction::Allow, rate }));
        assert(bucket_charged(&t, p, rate, first, tag_within));
        lemma_second_is_global(
            &t,
            p,
            tag_refuses(tag, tag_within) || p.is_fragment,
            rule,
            within,
            second,
        );
        assert(stored(runs[i]) == first + second);
        assert(stored(runs[i])[0] == first[0]);
        assert((first + second).take(1) =~= first);
        lemma_newest_first(first, second);
        match first[0] {
            Deed::Bucket { key, bucket, reply } => {
                assert(newest(stored(runs[i]), 1) == Some(bucket));
                let (now, found) = choose|now: u64, found: Option<RateLimitValue>|
                    {
                        &&& #[trigger] call_ensures(T::now, (&t,), now)
                        &&& #[trigger] call_ensures(T::bucket, (&t, key), found)
                        &&& match found {
                            None => {
                                &&& bucket.tokens == capacity(rate) - 1
                                &&& bucket.last_refill_ns == now
                                &&& tag_within == (reply >= 0)
                            },
                            Some(b) => takes_token(b, rate, now, p.len, bucket, tag_within),
                        }
                    };
                assert(found == left_by(runs.take(i), 1));
                assert(now == instant);
                match found {
                    None => {
                        assert(balance(left_by(runs.take(n), 1), 1, rate, instant));
                    },
                    Some(b) => {
                        lemma_no_time_no_tokens(b, rate, now, p.len, bucket, tag_within);
                        let more = through + if tag_within {
                            1int
                        } else {
                            0
                        };
                        assert(balance(left_by(runs.take(n), 1), more, rate, instant));
                    },
                }
            },
            _ => {},
        }
    }
}

/// Without a rate of its own a rule is charged to the global bucket.
proof fn lemma_second_is_global<T: Tables>(
    t: &T,
    p: Packet,
    skip: bool,
    rule: Option<L4AclValue>,
    within: bool,
    second: Seq<Deed>,
)
    requires
        rule_stage(t, p, skip, rule, within, second),
        forall|key: L4AclKey, v: L4AclValue| #[trigger]
            call_ensures(T::rule, (t, key), Some(v)) ==> v.rate == 0,
    ensures
        second.len() <= 1,
        second.len() == 1 ==> second[0] is Bucket && second[0]->Bucket_key.rule_id == 0,
{
    if !skip {
        if let Some(v) = rule {
            let (prefix, kept) = choose|prefix: u32, kept: int|
                {
                    &&& is_prefix(prefix)
                    &&& is_kept(p.flow.family, kept)
                    &&& #[trigger] rule_answer(t, p.flow, prefix, kept, Some(v))
                    &&& nothing_better(t, p.flow, prefix, kept)
                };
            assert(v.rate == 0);
        }
    }
}

proof fn lemma_newest_first(first: Seq<Deed>, second: Seq<Deed>)
    requires
        first.len() == 1,
        first[0] is Bucket,
        first[0]->Bucket_key.rule_id == 1,
        second.len() <= 1,
        second.len() == 1 ==> second[0] is Bucket && second[0]->Bucket_key.rule_id == 0,
    ensures
        newest(first + second, 1) == Some(first[0]->bucket),
{
    reveal_with_fuel(newest, 3);
    if second.len() == 0 {
        assert(first + second =~= first);
    } else {
        assert((first + second).drop_last() =~= first);
    }
}

/// Of a burst of untagged packets of one source that are no fragments, exactly
/// as many pass as the bucket can hold, or all: 256 times the rate where every
/// look at the ACL finds a rule that allows with a rate, 65536 where none finds
/// a rule.
pub proof fn rate_fixes_a_burst<T: Tables>(
    ts: Seq<T>,
    ifindex: u32,
    packets: Seq<Packet>,
    runs: Seq<Seq<Deed>>,
    actions: Seq<u32>,
    src: Seq<u8>,
    family: u8,
    instant: u64,
    rate: u32,
)
    requires
        burst(
            ts,
            ifindex,
            packets,
            runs,
            actions,
            src,
            family,
            instant,
            if rate > 0 {
                1u32
            } else {
                0
            },
        ),
        forall|i: int|
            0 <= i < packets.len() ==> (#[trigger] packets[i]).vlan_depth == 0
                && !packets[i].is_fragment,
        forall|i: int, key: L4AclKey, reply: Option<L4AclValue>|
            0 <= i < ts.len() && #[trigger] call_ensures(T::rule, (&ts[i], key), reply) ==> if rate
                > 0 {
                reply is Some && reply->0.action == AclAction::Allow && reply->0.rate == rate
            } else {
                reply is None
            },
    ensures
        passes(actions) == if actions.len() <= capacity(rate) {
            actions.len() as int
        } else {
            capacity(rate)
        },
{
    lemma_rate_burst(
        ts,
        ifindex,
        packets,
        runs,
        actions,
        src,
        family,
        instant,
        rate,
        actions.len() as int,
    );
    assert(actions.take(actions.len() as int) =~= actions);
}

proof fn lemma_rate_burst<T: Tables>(
    ts: Seq<T>,
    ifindex: u32,
    packets: Seq<Packet>,
    runs: Seq<Seq<Deed>>,
    actions: Seq<u32>,
    src: Seq<u8>,
    family: u8,
    instant: u64,
    rate: u32,
    n: int,
)
    requires
        burst(
            ts,
            ifindex,
            packets,
            runs,
            actions,
            src,
            family,
            instant,
            if rate > 0 {
                1u32
            } else {
                0
            },
        ),
        forall|i: int|
            0 <= i < packets.len() ==> (#[trigger] packets[i]).vlan_depth == 0
                && !packets[i].is_fragment,
        forall|i: int, key: L4AclKey, reply: Option<L4AclValue>|
            0 <= i < ts.len() && #[trigger] call_ensures(T::rule, (&ts[i], key), reply) ==> if rate
                > 0 {
                reply is Some && reply->0.action == AclAction::Allow && reply->0.rate == rate
            } else {
                reply is None
            },
        0 <= n <= actions.len(),
    ensures
        balance(
            left_by(
                runs.take(n),
                if rate > 0 {
                    1u32
                } else {
                    0
                },
            ),
            passes(actions.take(n)),
            rate,
            instant,
        ),
        passes(actions.take(n)) == if n <= capacity(rate) {
            n
        } else {
            capacity(rate)
        },
        n > 0 ==> left_by(
            runs.take(n),
            if rate > 0 {
                1u32
            } else {
                0
            },
        ) is Some,
    decreases n,
{
    let id = if rate > 0 {
        1u32
    } else {
        0
    };
    if n == 0 {
        assert(runs.take(0) =~= Seq::empty());
        assert(actions.take(0) =~= Seq::empty());
    } else {
        let i = n - 1;
        lemma_rate_burst(ts, ifindex, packets, runs, actions, src, family, instant, rate, i);
        assert(runs.take(n).drop_last() =~= runs.take(i));
        assert(actions.take(n).drop_last() =~= actions.take(i));
        let t = ts[i];
        let p = packets[i];
        assert(settled(&ts[i], ifindex, p, runs[i], actions[i]));
        rules_and_buckets_decide(&t, ifindex, p, runs[i], actions[i]);
        let (tag, tag_within, rule, within, first, second) = choose|
            tag: Option<VlanAclValue>,
            tag_within: bool,
            rule: Option<L4AclValue>,
            within: bool,
            first: Seq<Deed>,
            second: Seq<Deed>,
        | #[trigger]
            two_stages(&t, p, tag, tag_within, rule, within, first, second, runs[i], actions[i]);
        assert(tag is None);
        lemma_one_answer(&t, p.flow, rule, rate);
        assert(bucket_charged(&t, p, rate, second, within));
        assert(first + second =~= second);
        assert(stored(runs[i]) == second);
        assert(stored(runs[i])[0] == second[0]);
        reveal_with_fuel(newest, 2);
        match second[0] {
            Deed::Bucket { key, bucket, reply } => {
                assert(newest(stored(runs[i]), id) == Some(bucket));
                let (now, found) = choose|now: u64, found: Option<RateLimitValue>|
                    {
                        &&& #[trigger] call_ensures(T::now, (&t,), now)
                        &&& #[trigger] call_ensures(T::bucket, (&t, key), found)
                        &&& match found {
                            None => {
                                &&& bucket.tokens == capacity(rate) - 1
                                &&& bucket.last_refill_ns == now
                                &&& within == (reply >= 0)
                            },
                            Some(b) => takes_token(b, rate, now, p.len, bucket, within),
                        }
                    };
                assert(found == left_by(runs.take(i), id));
                assert(now == instant);
                if let Some(b) = found {
                    lemma_no_time_no_tokens(b, rate, now, p.len, bucket, within);
                }
            },
            _ => {},
        }
    }
}

proof fn lemma_one_answer<T: Tables>(t: &T, flow: FlowKey, rule: Option<L4AclValue>, rate: u32)
    requires
        best_rule(t, flow, rule),
        forall|key: L4AclKey, reply: Option<L4AclValue>| #[trigger]
            call_ensures(T::rule, (t, key), reply) ==> if rate > 0 {
                reply is Some && reply->0.action == AclAction::Allow && reply->0.rate == rate
            } else {
                reply is None
            },
    ensures
        if rate > 0 {
            rule is Some && rule->0.action == AclAction::Allow && rule->0.rate == rate
        } else {
            rule is None
        },
{
    match rule {
        Some(v) => {
            let (prefix, kept) = choose|prefix: u32, kept: int|
                {
                    &&& is_prefix(prefix)
                    &&& is_kept(flow.family, kept)
                    &&& #[trigger] rule_answer(t, flow, prefix, kept, Some(v))
                    &&& nothing_better(t, flow, prefix, kept)
                };
            assert(rule_answer(t, flow, prefix, kept, Some(v)));
        },
        None => {
            assert(is_prefix(352) && is_kept(flow.family, 16));
            assert(rule_answer(t, flow, 352, 16, None));
        },
    }
}

// ---- Counters and events ----

/// A counter that moved, by its number, or an event that was published.
pub enum Mark {
    Counted(u32, u64),
    Told { kind: EventKind, ifindex: u32, flow: FlowKey, aux0: u64, aux1: u64 },
}

/// The counters that were set and the events that were published, in order.
pub open spec fn marks(deeds: Seq<Deed>) -> Seq<Mark>
    decreases deeds.len(),
{
    if deeds.len() == 0 {
        Seq::empty()
    } else {
        let before = marks(deeds.drop_last());
        match deeds.last() {
            Deed::Counter { id, value } => before.push(Mark::Counted(id, value)),
            Deed::Published { event } => before.push(
                Mark::Told {
                    kind: event.kind,
                    ifindex: event.ifindex,
                    flow: event.flow,
                    aux0: event.aux0,
                    aux1: event.aux1,
                },
            ),
            _ => before,
        }
    }
}

/// Every counter stands at 0 and every event is published.
pub open spec fn blank<T: Tables>(t: &T) -> bool {
    &&& forall|id: u32, slot: Option<u64>| #[trigger]
        call_ensures(T::counter, (t, id), slot) ==> slot == Some(0u64)
    &&& forall|mask: Option<u64>| #[trigger]
        call_ensures(T::event_mask, (t,), mask) ==> mask is None
}

/// There was room for every event.
pub open spec fn roomy(deeds: Seq<Deed>) -> bool {
    forall|i: int| 0 <= i < deeds.len() ==> match #[trigger] deeds[i] {
        Deed::Room { made, .. } => made,
        _ => true,
    }
}

pub proof fn lemma_marks_add(a: Seq<Deed>, b: Seq<Deed>)
    ensures
        marks(a + b) == marks(a) + marks(b),
    decreases b.len(),
{
    if b.len() == 0 {
        assert(a + b =~= a);
        assert(marks(a) + marks(b) =~= marks(a));
    } else {
        lemma_marks_add(a, b.drop_last());
        assert((a + b).drop_last() =~= a + b.drop_last());
        assert((a + b).last() == b.last());
        assert(marks(a + b) =~= marks(a) + marks(b));
    }
}

/// The mark of an effect.
pub open spec fn mark_of(e: Effect, ifindex: u32, flow: FlowKey) -> Mark {
    match e {
        Effect::Count { counter, value } => Mark::Counted(counter.spec_code(), value),
        Effect::Emit { kind, aux0, aux1 } => Mark::Told { kind, ifindex, flow, aux0, aux1 },
    }
}

/// The marks of effects.
pub open spec fn marks_of(e: Seq<Effect>, ifindex: u32, flow: FlowKey) -> Seq<Mark> {
    Seq::new(e.len(), |i: int| mark_of(e[i], ifindex, flow))
}

proof fn lemma_mark<T: Tables>(
    t: &T,
    ifindex: u32,
    flow: FlowKey,
    e: Effect,
    deeds: Seq<Deed>,
)
    requires
        performed(t, ifindex, flow, e, deeds),
        blank(t),
        roomy(deeds),
    ensures
        marks(deeds) == seq![mark_of(e, ifindex, flow)],
{
    reveal_with_fuel(marks, 3);
    match e {
        Effect::Count { counter, value } => {
            assert(counted(t, counter, value, deeds));
            assert(deeds.len() == 1);
            assert(deeds.drop_last() =~= Seq::empty());
            assert(marks(deeds) =~= seq![mark_of(e, ifindex, flow)]);
        },
        Effect::Emit { kind, aux0, aux1 } => {
            assert(emitted(t, ifindex, flow, kind, aux0, aux1, deeds));
            assert(deeds.len() >= 1 && deeds[0] is Room);
            assert(deeds.len() == 2 && deeds[1] is Published);
            assert(deeds.drop_last().drop_last() =~= Seq::empty());
            assert(deeds.drop_last().last() == deeds[0]);
            assert(marks(deeds) =~= seq![mark_of(e, ifindex, flow)]);
        },
    }
}

pub proof fn lemma_marks_of<T: Tables>(
    t: &T,
    ifindex: u32,
    flow: FlowKey,
    effects: Seq<Effect>,
    deeds: Seq<Deed>,
)
    requires
        all_performed(t, ifindex, flow, effects, deeds),
        blank(t),
        roomy(deeds),
    ensures
        marks(deeds) == marks_of(effects, ifindex, flow),
    decreases effects.len(),
{
    if effects.len() > 0 {
        let k = choose|k: int|
            {
                &&& 0 <= k <= deeds.len()
                &&& all_performed(t, ifindex, flow, effects.drop_last(), #[trigger] deeds.take(k))
                &&& performed(t, ifindex, flow, effects.last(), deeds.skip(k))
            };
        assert forall|i: int| 0 <= i < deeds.take(k).len() implies match #[trigger] deeds.take(k)[i] {
            Deed::Room { made, .. } => made,
            _ => true,
        } by {
            assert(deeds.take(k)[i] == deeds[i]);
        }
        assert forall|i: int| 0 <= i < deeds.skip(k).len() implies match #[trigger] deeds.skip(k)[i] {
            Deed::Room { made, .. } => made,
            _ => true,
        } by {
            assert(deeds.skip(k)[i] == deeds[k + i]);
        }
        lemma_marks_of(t, ifindex, flow, effects.drop_last(), deeds.take(k));
        lemma_mark(t, ifindex, flow, effects.last(), deeds.skip(k));
        lemma_marks_add(deeds.take(k), deeds.skip(k));
        assert(deeds.take(k) + deeds.skip(k) =~= deeds);
    }
    assert(marks(deeds) =~= marks_of(effects, ifindex, flow));
}

/// What a packet that arrives is counted as, by the counters' numbers, and that
/// its tags are told of.
pub open spec fn arrival_marks(p: Packet, ifindex: u32) -> Seq<Mark> {
    let tell = |kind: EventKind, a: u64, b: u64|
        Mark::Told { kind, ifindex, flow: p.flow, aux0: a, aux1: b };
    let control = if p.flow.family == 6 && p.flow.ip_proto == 58 {
        seq![Mark::Counted(17, 1)]
    } else {
        Seq::empty()
    };
    let tags = if p.vlan_depth > 0 {
        seq![
            Mark::Counted(26, 1),
            tell(EventKind::VlanDetected, p.vlan@[0].id as u64, p.vlan_depth as u64),
        ]
    } else {
        Seq::empty()
    };
    let network = if p.flow.family == 4 {
        15u32
    } else if p.flow.family == 6 {
        16
    } else {
        20
    };
    let transport = if p.flow.ip_proto == 6 {
        18u32
    } else if p.flow.ip_proto == 17 {
        19
    } else if p.flow.ip_proto == 58 {
        17
    } else {
        20
    };
    control + tags + seq![Mark::Counted(network, 1), Mark::Counted(transport, 1)]
}

/// A packet over a limit is counted as dropped and as limited, and told of.
pub open spec fn limit_marks(p: Packet, ifindex: u32) -> Seq<Mark> {
    seq![
        Mark::Counted(3, 1),
        Mark::Counted(10, 1),
        Mark::Told {
            kind: EventKind::RateLimited,
            ifindex,
            flow: p.flow,
            aux0: p.len,
            aux1: 0,
        },
    ]
}

/// An allowed packet is counted as such and told of.
pub open spec fn allow_marks(p: Packet, ifindex: u32) -> Seq<Mark> {
    seq![
        Mark::Counted(8, 1),
        Mark::Told { kind: EventKind::PacketAllow, ifindex, flow: p.flow, aux0: 0, aux1: 0 },
    ]
}

/// What the rule of the tags makes of the counters and events.
pub open spec fn tag_marks(
    p: Packet,
    ifindex: u32,
    tag: Option<VlanAclValue>,
    within: bool,
) -> Seq<Mark> {
    match tag {
        None => Seq::empty(),
        Some(v) => match v.action {
            AclAction::Drop => seq![
                Mark::Counted(3, 1),
                Mark::Told { kind: EventKind::PacketDrop, ifindex, flow: p.flow, aux0: 0, aux1: 0 },
            ],
            AclAction::Allow => if v.rate > 0 && !within {
                allow_marks(p, ifindex) + limit_marks(p, ifindex)
            } else {
                allow_marks(p, ifindex)
            },
            _ => Seq::empty(),
        },
    }
}

/// What the rule of the ACL makes of the counters and events; a packet that gets
/// that far is counted with its length.
pub open spec fn rule_marks(
    p: Packet,
    ifindex: u32,
    rule: Option<L4AclValue>,
    within: bool,
) -> Seq<Mark> {
    let received = seq![Mark::Counted(0, 1), Mark::Counted(1, p.len)];
    let allowed = if within {
        allow_marks(p, ifindex)
    } else {
        allow_marks(p, ifindex) + limit_marks(p, ifindex)
    };
    received + match rule {
        None => allowed,
        Some(v) => match v.action {
            AclAction::Drop => seq![
                Mark::Counted(3, 1),
                Mark::Counted(7, 1),
                Mark::Told { kind: EventKind::PacketDrop, ifindex, flow: p.flow, aux0: 0, aux1: 0 },
            ],
            AclAction::Allow => allowed,
            _ => Seq::empty(),
        },
    }
}

/// All counters and events of a packet.
pub open spec fn packet_marks(
    p: Packet,
    ifindex: u32,
    tag: Option<VlanAclValue>,
    tag_within: bool,
    rule: Option<L4AclValue>,
    within: bool,
) -> Seq<Mark> {
    arrival_marks(p, ifindex) + tag_marks(p, ifindex, tag, tag_within) + if tag_refuses(
        tag,
        tag_within,
    ) || p.is_fragment {
        Seq::empty()
    } else {
        rule_marks(p, ifindex, rule, within)
    }
}

/// The program's verdict, the buckets it stores and the counters and events it
/// leaves follow from one look at the rules: every packet is counted by network
/// and transport protocol, a dropped one once as dropped, and each is told of
/// with the interface it came in on.
pub proof fn packets_leave_their_marks<T: Tables>(
    t: &T,
    ifindex: u32,
    p: Packet,
    deeds: Seq<Deed>,
    action: u32,
)
    requires
        settled(t, ifindex, p, deeds, action),
        blank(t),
        roomy(deeds),
    ensures
        exists|
            tag: Option<VlanAclValue>,
            tag_within: bool,
            rule: Option<L4AclValue>,
            within: bool,
            first: Seq<Deed>,
            second: Seq<Deed>,
        |
            {
                &&& #[trigger] two_stages(
                    t,
                    p,
                    tag,
                    tag_within,
                    rule,
                    within,
                    first,
                    second,
                    deeds,
                    action,
                )
                &&& marks(deeds) == packet_marks(p, ifindex, tag, tag_within, rule, within)
            },
{
    let (replies, x) = choose|replies: Replies, x: Stretches|
        {
            &&& #[trigger] handled(t, ifindex, p, replies, x)
            &&& deeds == x.all()
            &&& action == crate::xdp::verdict(p, replies)
        };
    lemma_two_stages(t, ifindex, p, replies, x);
    let e1 = crate::xdp::first_effects(p, replies);
    let e2 = crate::xdp::second_effects(p, replies);
    let e3 = crate::xdp::third_effects(p, replies);
    let n1 = x.first.len() as int;
    let n2 = n1 + x.vlan.len();
    let n3 = n2 + x.second.len();
    let n4 = n3 + x.acl.len();
    assert forall|i: int| 0 <= i < x.first.len() implies match #[trigger] x.first[i] {
        Deed::Room { made, .. } => made,
        _ => true,
    } by {
        assert(deeds[i] == x.first[i]);
    }
    assert forall|i: int| 0 <= i < x.second.len() implies match #[trigger] x.second[i] {
        Deed::Room { made, .. } => made,
        _ => true,
    } by {
        assert(deeds[n2 + i] == x.second[i]);
    }
    assert forall|i: int| 0 <= i < x.third.len() implies match #[trigger] x.third[i] {
        Deed::Room { made, .. } => made,
        _ => true,
    } by {
        assert(deeds[n4 + i] == x.third[i]);
    }
    lemma_marks_of(t, ifindex, p.flow, e1, x.first);
    lemma_marks_of(t, ifindex, p.flow, e2, x.second);
    lemma_marks_of(t, ifindex, p.flow, e3, x.third);
    lemma_bucket_marks(x.vlan);
    lemma_bucket_marks(x.acl);
    lemma_marks_add(x.first, x.vlan);
    lemma_marks_add(x.first + x.vlan, x.second);
    lemma_marks_add(x.first + x.vlan + x.second, x.acl);
    lemma_marks_add(x.first + x.vlan + x.second + x.acl, x.third);
    lemma_packet_marks(p, ifindex, replies);
    let m1 = marks_of(e1, ifindex, p.flow);
    let m2 = marks_of(e2, ifindex, p.flow);
    let m3 = marks_of(e3, ifindex, p.flow);
    assert(marks(deeds) =~= m1 + m2 + m3);
}

proof fn lemma_bucket_marks(deeds: Seq<Deed>)
    requires
        deeds.len() == 0 || deeds.len() == 1 && deeds[0] is Bucket,
    ensures
        marks(deeds) == Seq::<Mark>::empty(),
{
    reveal_with_fuel(marks, 2);
    if deeds.len() == 1 {
        assert(deeds.drop_last() =~= Seq::empty());
    }
}

#[verifier::rlimit(40)]
proof fn lemma_packet_marks(p: Packet, ifindex: u32, replies: Replies)
    requires
        p.vlan_depth == 0 ==> replies.vlan is None,
    ensures
        marks_of(crate::xdp::first_effects(p, replies), ifindex, p.flow) + marks_of(
            crate::xdp::second_effects(p, replies),
            ifindex,
            p.flow,
        ) + marks_of(crate::xdp::third_effects(p, replies), ifindex, p.flow) == packet_marks(
            p,
            ifindex,
            replies.vlan,
            replies.vlan_within,
            replies.rule,
            replies.within,
        ),
{
    let e1 = crate::xdp::first_effects(p, replies);
    let e2 = crate::xdp::second_effects(p, replies);
    let e3 = crate::xdp::third_effects(p, replies);
    let skip = tag_refuses(replies.vlan, replies.vlan_within) || p.is_fragment;
    assert(marks_of(crate::xdp::arrival_effects(p), ifindex, p.flow) =~= arrival_marks(
        p,
        ifindex,
    ));
    assert(marks_of(e1, ifindex, p.flow) =~= arrival_marks(p, ifindex) + marks_of(
        crate::xdp::vlan_start(p, replies),
        ifindex,
        p.flow,
    ));
    let m = marks_of(crate::xdp::vlan_start(p, replies), ifindex, p.flow) + marks_of(
        e2,
        ifindex,
        p.flow,
    ) + marks_of(e3, ifindex, p.flow);
    let tail = tag_marks(p, ifindex, replies.vlan, replies.vlan_within) + if skip {
        Seq::empty()
    } else {
        rule_marks(p, ifindex, replies.rule, replies.within)
    };
    assert(m =~= tail);
    assert(marks_of(e1, ifindex, p.flow) + marks_of(e2, ifindex, p.flow) + marks_of(
        e3,
        ifindex,
        p.flow,
    ) =~= arrival_marks(p, ifindex) + m);
    assert(packet_marks(
        p,
        ifindex,
        replies.vlan,
        replies.vlan_within,
        replies.rule,
        replies.within,
    ) =~= arrival_marks(p, ifindex) + tail);
}

// ---- Frames ----

/// The packet was judged by the rules of the tables.
pub open spec fn judged<T: Tables>(
    t: &T,
    ifindex: u32,
    p: Packet,
    deeds: Seq<Deed>,
    action: u32,
) -> bool {
    exists|
        tag: Option<VlanAclValue>,
        tag_within: bool,
        rule: Option<L4AclValue>,
        within: bool,
        first: Seq<Deed>,
        second: Seq<Deed>,
    |
        {
            &&& #[trigger] two_stages(
                t,
                p,
                tag,
                tag_within,
                rule,
                within,
                first,
                second,
                deeds,
                action,
            )
            &&& blank(t) && roomy(deeds) ==> marks(deeds) == packet_marks(
                p,
                ifindex,
                tag,
                tag_within,
                rule,
                within,
            )
        }
}

proof fn lemma_judged<T: Tables>(
    t: &T,
    ifindex: u32,
    p: Packet,
    deeds: Seq<Deed>,
    action: u32,
)
    requires
        settled(t, ifindex, p, deeds, action),
    ensures
        judged(t, ifindex, p, deeds, action),
{
    rules_and_buckets_decide(t, ifindex, p, deeds, action);
    if blank(t) && roomy(deeds) {
        packets_leave_their_marks(t, ifindex, p, deeds, action);
    }
}

/// The tags and the segment of a frame are those of the packet.
pub open spec fn carried(p: Packet, tags: Seq<(u16, VlanTag)>, s: Segment, len: int) -> bool {
    &&& p.flow.ip_proto == s.proto
    &&& s.proto == 6 || s.proto == 17 ==> p.flow.src_port == s.src_port && p.flow.dst_port
        == s.dst_port
    &&& s.proto != 6 && s.proto != 17 ==> p.flow.src_port == 0 && p.flow.dst_port == 0
    &&& p.vlan_depth == tags.len()
    &&& forall|i: int| 0 <= i < tags.len() ==> #[trigger] p.vlan@[i] == tags[i].1
    &&& p.len == len
}

/// A frame with an IPv4 packet is judged by the rules for the packet that it
/// carries.
pub proof fn ipv4_frames_are_judged<T: Tables>(
    t: &T,
    ifindex: u32,
    before: Seq<u8>,
    after: Seq<u8>,
    macs: Seq<u8>,
    tags: Seq<(u16, VlanTag)>,
    h: Header4,
    s: Segment,
    deeds: Seq<Deed>,
    action: u32,
)
    requires
        macs.len() == 12,
        tags_fit(tags),
        h.fits(),
        s.fits(),
        s.proto == 6 || s.proto == 17 || s.proto == 1,
        ({
            let f = ethernet(macs, tags, 0x0800, h.bytes(s.proto) + s.bytes());
            frame_handled(
                t,
                ifindex,
                before + f + after,
                before.len() as int,
                (before.len() + f.len()) as int,
                deeds,
                action,
            )
        }),
    ensures
        exists|p: Packet|
            {
                &&& #[trigger] judged(t, ifindex, p, deeds, action)
                &&& p.flow.family == 4
                &&& p.flow.src_addr@ == seq![0u8, 0, 0, 0, 0, 0, 0, 0, 0, 0, 0, 0] + h.src
                &&& p.flow.dst_addr@ == seq![0u8, 0, 0, 0, 0, 0, 0, 0, 0, 0, 0, 0] + h.dst
                &&& p.is_fragment == (h.more || h.offset != 0)
                &&& carried(
                    p,
                    tags,
                    s,
                    ethernet(macs, tags, 0x0800, h.bytes(s.proto) + s.bytes()).len() as int,
                )
            },
{
    let f = ethernet(macs, tags, 0x0800, h.bytes(s.proto) + s.bytes());
    ipv4_frame_is_read_back(before, after, macs, tags, h, s);
    let v = packet_in(
        before + f + after,
        before.len() as int,
        (before.len() + f.len()) as int,
    )->Ok_0;
    assert(frame_settled(t, ifindex, v, deeds, action));
    let p = choose|p: Packet| p@ == v && #[trigger] settled(t, ifindex, p, deeds, action);
    lemma_judged(t, ifindex, p, deeds, action);
    assert(p@.src_addr == p.flow.src_addr@ && p@.dst_addr == p.flow.dst_addr@);
    assert(p@.vlan == p.vlan@);
    assert forall|i: int| 0 <= i < tags.len() implies #[trigger] p.vlan@[i] == tags[i].1 by {
        assert(p@.vlan[i] == tags[i].1);
    }
}

/// A frame with an IPv6 packet is judged by the rules for the packet that it
/// carries.
pub proof fn ipv6_frames_are_judged<T: Tables>(
    t: &T,
    ifindex: u32,
    before: Seq<u8>,
    after: Seq<u8>,
    macs: Seq<u8>,
    tags: Seq<(u16, VlanTag)>,
    low: u8,
    rest: Seq<u8>,
    src: Seq<u8>,
    dst: Seq<u8>,
    exts: Seq<Extension>,
    s: Segment,
    deeds: Seq<Deed>,
    action: u32,
)
    requires
        macs.len() == 12,
        tags_fit(tags),
        low < 16,
        rest.len() == 6,
        src.len() == 16,
        dst.len() == 16,
        exts.len() <= 4,
        forall|i: int| 0 <= i < exts.len() ==> (#[trigger] exts[i]).fits(),
        s.fits(),
        s.proto == 6 || s.proto == 17 || s.proto == 58,
        ({
            let head = net_ipv6(low, rest, src, dst, exts, s.proto);
            let f = ethernet(macs, tags, 0x86dd, head + s.bytes());
            frame_handled(
                t,
                ifindex,
                before + f + after,
                before.len() as int,
                (before.len() + f.len()) as int,
                deeds,
                action,
            )
        }),
    ensures
        exists|p: Packet|
            {
                &&& #[trigger] judged(t, ifindex, p, deeds, action)
                &&& p.flow.family == 6
                &&& p.flow.src_addr@ == src
                &&& p.flow.dst_addr@ == dst
                &&& p.is_fragment == has_fragment(exts)
                &&& carried(
                    p,
                    tags,
                    s,
                    ethernet(
                        macs,
                        tags,
                        0x86dd,
                        net_ipv6(low, rest, src, dst, exts, s.proto) + s.bytes(),
                    ).len() as int,
                )
            },
{
    let head = net_ipv6(low, rest, src, dst, exts, s.proto);
    let f = ethernet(macs, tags, 0x86dd, head + s.bytes());
    ipv6_frame_is_read_back(before, after, macs, tags, low, rest, src, dst, exts, s);
    let v = packet_in(
        before + f + after,
        before.len() as int,
        (before.len() + f.len()) as int,
    )->Ok_0;
    assert(frame_settled(t, ifindex, v, deeds, action));
    let p = choose|p: Packet| p@ == v && #[trigger] settled(t, ifindex, p, deeds, action);
    lemma_judged(t, ifindex, p, deeds, action);
    assert(p@.src_addr == p.flow.src_addr@ && p@.dst_addr == p.flow.dst_addr@);
    assert(p@.vlan == p.vlan@);
    assert forall|i: int| 0 <= i < tags.len() implies #[trigger] p.vlan@[i] == tags[i].1 by {
        assert(p@.vlan[i] == tags[i].1);
    }
}

/// A frame of another protocol passes and moves the counter 2 by one; one too
/// short for an Ethernet header is aborted and moves the counter 11. Nothing
/// else is done for either.
pub proof fn other_frames_only_count<T: Tables>(
    t: &T,
    ifindex: u32,
    before: Seq<u8>,
    after: Seq<u8>,
    f: Seq<u8>,
    macs: Seq<u8>,
    tags: Seq<(u16, VlanTag)>,
    kind: u16,
    inner: Seq<u8>,
    deeds: Seq<Deed>,
    action: u32,
)
    requires
        blank(t),
        frame_handled(
            t,
            ifindex,
            before + f + after,
            before.len() as int,
            (before.len() + f.len()) as int,
            deeds,
            action,
        ),
    ensures
        f.len() < 14 ==> action == 0 && deeds == seq![Deed::Counter { id: 11, value: 1 }],
        macs.len() == 12 && tags_fit(tags) && kind != 0x0800 && kind != 0x86dd && (tags.len() == 2
            || (kind != 0x8100 && kind != 0x88a8)) && f == ethernet(macs, tags, kind, inner)
            ==> action == 2 && deeds == seq![Deed::Counter { id: 2, value: 1 }],
{
    assert((before + f + after).subrange(before.len() as int, (before.len() + f.len()) as int)
        =~= f);
    if macs.len() == 12 && tags_fit(tags) && kind != 0x0800 && kind != 0x86dd && (tags.len() == 2
        || (kind != 0x8100 && kind != 0x88a8)) && f == ethernet(macs, tags, kind, inner) {
        other_frames_are_unsupported(macs, tags, kind, inner, before.len() as int);
    }
}

} // verus!
