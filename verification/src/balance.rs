//! Load balancing and connection tracking.
use vstd::prelude::*;

use crate::conduct::{blank, lemma_marks_add, lemma_marks_of, mark_of, marks, marks_of, roomy, Mark};
use crate::maps::{
    xdp_md, Backend, ConntrackState, ConntrackValue, CounterId, EventKind, FlowKey, LbMeta,
    LbService, LbServiceKey, Packet, INVALID_BACKEND_ID, IP_PROTO_TCP, MAX_BACKENDS, TCP_ACK,
    TCP_FIN, TCP_RST, TCP_SYN, XDP_PASS, XDP_REDIRECT,
};
use crate::trace::{extends, lemma_push, lemma_same, lemma_since, since};
use crate::trail::{Deed, LbSink, Trail};
use crate::xdp::{
    all_performed, count, counted, emit, incr_counter, perform, saturating_sum, Effect, Tables,
};

verus! {

/// What the load balancer reads besides. Nothing is assumed of what is
/// answered.
pub trait LbTables: Tables {
    fn service(&self, key: LbServiceKey) -> Option<LbService>;

    fn meta(&self) -> Option<LbMeta>;

    fn backend(&self, id: u32) -> Option<Backend>;

    fn connection(&self, flow: FlowKey) -> Option<ConntrackValue>;
}

// ---- The flow hash ----

/// One step of the 32-bit FNV-1a hash.
pub open spec fn fnv_step(hash: u32, x: u32) -> u32 {
    (hash ^ x).wrapping_mul(0x01000193)
}

/// The hash continued over bytes.
pub open spec fn fnv_bytes(hash: u32, s: Seq<u8>) -> u32
    decreases s.len(),
{
    if s.len() == 0 {
        hash
    } else {
        fnv_step(fnv_bytes(hash, s.drop_last()), s.last() as u32)
    }
}

/// The FNV-1a hash over both addresses, both ports and the protocol.
pub open spec fn flow_hash_of(flow: FlowKey) -> u32 {
    let addresses = fnv_bytes(fnv_bytes(0x811c9dc5, flow.src_addr@), flow.dst_addr@);
    fnv_step(
        fnv_step(fnv_step(addresses, flow.src_port as u32), flow.dst_port as u32),
        flow.ip_proto as u32,
    )
}

fn hash_bytes(start: u32, s: &[u8; 16]) -> (r: u32)
    ensures
        r == fnv_bytes(start, s@),
{
    let mut hash: u32 = start;
    let mut i: usize = 0;
    while i < 16
        invariant
            i <= 16,
            s@.len() == 16,
            hash == fnv_bytes(start, s@.take(i as int)),
        decreases 16 - i,
    {
        hash = (hash ^ s[i] as u32).wrapping_mul(0x01000193);
        i += 1;
        assert(s@.take(i as int).drop_last() =~= s@.take(i - 1));
    }
    assert(s@.take(16) =~= s@);
    hash
}

/// The hash by which a flow chooses its first backend.
pub fn flow_hash(flow: &FlowKey) -> (r: u32)
    ensures
        r == flow_hash_of(*flow),
{
    let mut hash: u32 = hash_bytes(0x811c9dc5, &flow.src_addr);
    hash = hash_bytes(hash, &flow.dst_addr);
    hash = (hash ^ flow.src_port as u32).wrapping_mul(0x01000193);
    hash = (hash ^ flow.dst_port as u32).wrapping_mul(0x01000193);
    hash = (hash ^ flow.ip_proto as u32).wrapping_mul(0x01000193);
    hash
}

// ---- Choosing a backend ----

/// `key` is the service that the flow is addressed to.
pub open spec fn is_service_key(key: LbServiceKey, flow: FlowKey) -> bool {
    &&& key.addr@ == flow.dst_addr@
    &&& key.port == flow.dst_port
    &&& key.proto == flow.ip_proto
    &&& key.family == flow.family
}

/// The service that a flow is addressed to.
pub fn lookup_lb_service<T: LbTables>(t: &T, flow: &FlowKey) -> (r: Option<LbService>)
    ensures
        exists|key: LbServiceKey|
            is_service_key(key, *flow) && #[trigger] call_ensures(T::service, (t, key), r),
{
    let key = LbServiceKey {
        addr: flow.dst_addr,
        port: flow.dst_port,
        proto: flow.ip_proto,
        family: flow.family,
    };
    let r = t.service(key);
    assert(is_service_key(key, *flow) && call_ensures(T::service, (t, key), r));
    r
}

pub open spec fn num_backends(meta: Option<LbMeta>) -> u32 {
    match meta {
        Some(m) => m.num_backends,
        None => 0,
    }
}

/// The number of configured backends, 0 where none was ever stored.
pub fn meta_num_backends<T: LbTables>(t: &T) -> (r: u32)
    ensures
        exists|meta: Option<LbMeta>|
            r == num_backends(meta) && #[trigger] call_ensures(T::meta, (t,), meta),
{
    let meta = t.meta();
    assert(call_ensures(T::meta, (t,), meta));
    match meta {
        Some(m) => m.num_backends,
        None => 0,
    }
}

/// The slot holds a configured, healthy backend of the group.
pub open spec fn eligible_backend(slot: Option<Backend>, group: u32) -> bool {
    match slot {
        Some(b) => b.backend_group == group && b.configured() && !b.unhealthy(),
        None => false,
    }
}

/// Whether a slot holds a configured, healthy backend of the group.
pub fn is_eligible(slot: Option<Backend>, group: u32) -> (r: bool)
    ensures
        r == eligible_backend(slot, group),
{
    match slot {
        Some(b) => b.backend_group == group && b.is_configured() && !b.is_unhealthy(),
        None => false,
    }
}

/// The slot looked at in step `i` by a flow: from the slot of its hash on,
/// round the table.
pub open spec fn slot_of(flow: FlowKey, i: int) -> u32 {
    ((flow_hash_of(flow) % MAX_BACKENDS + i) % (MAX_BACKENDS as int)) as u32
}

/// The slot of step `i` was looked at and found to be eligible or not.
pub open spec fn looked_at<T: LbTables>(
    t: &T,
    flow: FlowKey,
    group: u32,
    i: int,
    eligible: bool,
) -> bool {
    exists|slot: Option<Backend>|
        eligible == eligible_backend(slot, group) && #[trigger] call_ensures(
            T::backend,
            (t, slot_of(flow, i)),
            slot,
        )
}

/// Without backends there is no choice; otherwise the first eligible slot is
/// chosen.
pub open spec fn chosen<T: LbTables>(t: &T, flow: FlowKey, group: u32, id: Option<u32>) -> bool {
    exists|meta: Option<LbMeta>|
        {
            &&& #[trigger] call_ensures(T::meta, (t,), meta)
            &&& match id {
                Some(b) => num_backends(meta) != 0 && exists|n: int|
                    {
                        &&& 0 <= n < MAX_BACKENDS
                        &&& b == slot_of(flow, n)
                        &&& #[trigger] looked_at(t, flow, group, n, true)
                        &&& forall|i: int|
                            0 <= i < n ==> #[trigger] looked_at(t, flow, group, i, false)
                    },
                None => num_backends(meta) == 0 || forall|i: int|
                    0 <= i < MAX_BACKENDS ==> #[trigger] looked_at(t, flow, group, i, false),
            }
        }
}

/// Chooses a backend of the group for a flow.
pub fn select_backend<T: LbTables>(t: &T, flow: &FlowKey, backend_group: u32) -> (r: Option<u32>)
    ensures
        chosen(t, *flow, backend_group, r),
        r matches Some(id) ==> id < MAX_BACKENDS,
{
    let hash: u32 = flow_hash(flow);
    let meta = t.meta();
    assert(call_ensures(T::meta, (t,), meta));
    let count: u32 = match meta {
        Some(m) => m.num_backends,
        None => 0,
    };
    if count == 0 {
        return None;
    }
    let start: u32 = hash % MAX_BACKENDS;
    let mut i: u32 = 0;
    while i < MAX_BACKENDS
        invariant
            i <= MAX_BACKENDS,
            start == flow_hash_of(*flow) % MAX_BACKENDS,
            count == num_backends(meta),
            count != 0,
            call_ensures(T::meta, (t,), meta),
            forall|j: int| 0 <= j < i ==> #[trigger] looked_at(t, *flow, backend_group, j, false),
        decreases MAX_BACKENDS - i,
    {
        let backend_id: u32 = (start + i) % MAX_BACKENDS;
        assert(backend_id == slot_of(*flow, i as int));
        let slot = t.backend(backend_id);
        let ok = is_eligible(slot, backend_group);
        assert(call_ensures(T::backend, (t, slot_of(*flow, i as int)), slot));
        assert(looked_at(t, *flow, backend_group, i as int, ok));
        if ok {
            return Some(backend_id);
        }
        i += 1;
    }
    None
}

/// The entry with its backend chosen.
pub open spec fn assigned(entry: ConntrackValue, id: u32) -> ConntrackValue {
    ConntrackValue { backend_id: id, ..entry }
}

/// The entry of the flow was stored once, and then the counter went up; nothing
/// else was done.
pub open spec fn stored_then_counted<T: LbTables>(
    t: &T,
    flow: FlowKey,
    value: ConntrackValue,
    counter: CounterId,
    deeds: Seq<Deed>,
) -> bool {
    &&& deeds.len() >= 1
    &&& deeds[0] matches Deed::Connection { flow: f, entry: v, .. }
    &&& f == flow
    &&& v == value
    &&& counted(t, counter, 1, deeds.skip(1))
}

/// A flow without an entry has no backend; an entry keeps the backend it has;
/// one without gets the choice, which is stored and counted. Only a choice does
/// anything.
pub open spec fn resolved<T: LbTables>(
    t: &T,
    flow: FlowKey,
    group: u32,
    deeds: Seq<Deed>,
    r: Option<u32>,
) -> bool {
    exists|entry: Option<ConntrackValue>|
        {
            &&& #[trigger] call_ensures(T::connection, (t, flow), entry)
            &&& match entry {
                None => r is None && deeds.len() == 0,
                Some(e) => if e.backend_id != INVALID_BACKEND_ID {
                    r == Some(e.backend_id) && deeds.len() == 0
                } else {
                    &&& chosen(t, flow, group, r)
                    &&& match r {
                        Some(id) => stored_then_counted(
                            t,
                            flow,
                            assigned(e, id),
                            CounterId::BackendSelected,
                            deeds,
                        ),
                        None => deeds.len() == 0,
                    }
                },
            }
        }
}

/// The backend of a tracked flow.
pub fn resolve_backend_id<T: LbTables, S: LbSink>(
    t: &T,
    w: &mut Trail<S>,
    flow: &FlowKey,
    backend_group: u32,
) -> (r: Option<u32>)
    ensures
        extends(old(w).deeds(), final(w).deeds()),
        final(w).sink() == old(w).sink(),
        resolved(t, *flow, backend_group, since(old(w).deeds(), final(w).deeds()), r),
{
    let ghost start = w.deeds();
    proof {
        lemma_same(start);
    }
    let entry = t.connection(*flow);
    assert(call_ensures(T::connection, (t, *flow), entry));
    match entry {
        None => None,
        Some(e) => {
            if e.backend_id != INVALID_BACKEND_ID {
                return Some(e.backend_id);
            }
            let choice = select_backend(t, flow, backend_group);
            if let Some(id) = choice {
                let updated = ConntrackValue { backend_id: id, ..e };
                let reply: i64 = w.store_connection(*flow, updated);
                let ghost middle = w.deeds();
                proof {
                    lemma_push(start, Deed::Connection { flow: *flow, entry: updated, reply });
                }
                incr_counter(t, w, CounterId::BackendSelected, 1);
                proof {
                    lemma_since(start, middle, w.deeds());
                    assert(since(start, w.deeds()).skip(1) =~= since(middle, w.deeds()));
                    assert(stored_then_counted(
                        t,
                        *flow,
                        assigned(e, id),
                        CounterId::BackendSelected,
                        since(start, w.deeds()),
                    ));
                }
            }
            choice
        },
    }
}

/// The backend of a number: one within the table, in use.
pub open spec fn backend_looked_up<T: LbTables>(t: &T, id: u32, r: Option<Backend>) -> bool {
    if id >= MAX_BACKENDS {
        r is None
    } else {
        exists|slot: Option<Backend>|
            {
                &&& #[trigger] call_ensures(T::backend, (t, id), slot)
                &&& r == if slot is Some && slot->0.configured() {
                    slot
                } else {
                    None
                }
            }
    }
}

/// Looks a backend up by its number.
pub fn lookup_backend<T: LbTables>(t: &T, backend_id: u32) -> (r: Option<Backend>)
    ensures
        backend_looked_up(t, backend_id, r),
{
    if backend_id >= MAX_BACKENDS {
        return None;
    }
    let slot = t.backend(backend_id);
    assert(call_ensures(T::backend, (t, backend_id), slot));
    match slot {
        Some(b) => if b.is_configured() {
            Some(b)
        } else {
            None
        },
        None => None,
    }
}

// ---- Redirecting ----

/// A packet is handed over only to a healthy backend.
pub open spec fn usable(backend: Option<Backend>) -> bool {
    backend is Some && !backend->0.unhealthy()
}

/// The verdict after an attempt to hand the packet over, where `ret` is what
/// the attempt returned.
pub open spec fn redirect_verdict(backend: Option<Backend>, ret: i64) -> u32 {
    if usable(backend) && ret == XDP_REDIRECT {
        XDP_REDIRECT
    } else {
        XDP_PASS
    }
}

pub open spec fn redirect_effects(backend: Option<Backend>, backend_id: u32, ret: i64) -> Seq<
    Effect,
> {
    if !usable(backend) {
        seq![count(CounterId::BackendUnavailable, 1), count(CounterId::Passed, 1)]
    } else if ret < 0 {
        seq![count(CounterId::RedirectFailed, 1)]
    } else if ret == XDP_REDIRECT {
        seq![
            count(CounterId::Redirected, 1),
            emit(EventKind::BackendSelected, backend_id as u64, 0),
        ]
    } else {
        seq![count(CounterId::Passed, 1)]
    }
}

/// The verdict and effects of handing a packet to a backend. `ret` counts only
/// where the backend can be used.
pub fn decide_redirect(backend: Option<Backend>, backend_id: u32, ret: i64) -> (r: (
    u32,
    Vec<Effect>,
))
    ensures
        r.0 == redirect_verdict(backend, ret),
        r.1@ == redirect_effects(backend, backend_id, ret),
{
    let mut log: Vec<Effect> = Vec::new();
    let ok = match backend {
        Some(b) => !b.is_unhealthy(),
        None => false,
    };
    if !ok {
        log.push(Effect::Count { counter: CounterId::BackendUnavailable, value: 1 });
        log.push(Effect::Count { counter: CounterId::Passed, value: 1 });
        assert(log@ =~= redirect_effects(backend, backend_id, ret));
        return (XDP_PASS, log);
    }
    if ret < 0 {
        log.push(Effect::Count { counter: CounterId::RedirectFailed, value: 1 });
        assert(log@ =~= redirect_effects(backend, backend_id, ret));
        return (XDP_PASS, log);
    }
    if ret == XDP_REDIRECT as i64 {
        log.push(Effect::Count { counter: CounterId::Redirected, value: 1 });
        log.push(
            Effect::Emit { kind: EventKind::BackendSelected, aux0: backend_id as u64, aux1: 0 },
        );
        assert(log@ =~= redirect_effects(backend, backend_id, ret));
        return (XDP_REDIRECT, log);
    }
    log.push(Effect::Count { counter: CounterId::Passed, value: 1 });
    assert(log@ =~= redirect_effects(backend, backend_id, ret));
    (XDP_PASS, log)
}

/// The backend was looked up, the packet handed over once where it can be used,
/// and the verdict and effects followed; nothing else was done.
pub open spec fn redirected<T: LbTables>(
    t: &T,
    ifindex: u32,
    flow: FlowKey,
    backend_id: u32,
    deeds: Seq<Deed>,
    action: u32,
) -> bool {
    exists|backend: Option<Backend>, ret: i64|
        {
            &&& #[trigger] backend_looked_up(t, backend_id, backend)
            &&& action == #[trigger] redirect_verdict(backend, ret)
            &&& if usable(backend) {
                &&& deeds.len() >= 1
                &&& deeds[0] == (Deed::Redirect { backend_id, reply: ret })
                &&& all_performed(
                    t,
                    ifindex,
                    flow,
                    redirect_effects(backend, backend_id, ret),
                    deeds.skip(1),
                )
            } else {
                all_performed(
                    t,
                    ifindex,
                    flow,
                    redirect_effects(backend, backend_id, ret),
                    deeds,
                )
            }
        }
}

/// Hands a packet to a backend.
pub fn redirect_backend<T: LbTables, S: LbSink>(
    t: &T,
    w: &mut Trail<S>,
    ctx: &xdp_md,
    packet: &Packet,
    backend_id: u32,
) -> (r: u32)
    ensures
        extends(old(w).deeds(), final(w).deeds()),
        final(w).sink() == old(w).sink(),
        redirected(
            t,
            ctx.ingress_ifindex,
            packet.flow,
            backend_id,
            since(old(w).deeds(), final(w).deeds()),
            r,
        ),
{
    let ghost start = w.deeds();
    proof {
        lemma_same(start);
    }
    let backend = lookup_backend(t, backend_id);
    let ok = match backend {
        Some(b) => !b.is_unhealthy(),
        None => false,
    };
    let mut ret: i64 = 0;
    if ok {
        ret = w.redirect(backend_id);
        proof {
            lemma_push(start, Deed::Redirect { backend_id, reply: ret });
        }
    }
    let ghost middle = w.deeds();
    let (action, log) = decide_redirect(backend, backend_id, ret);
    perform(t, w, ctx, &packet.flow, &log);
    proof {
        lemma_since(start, middle, w.deeds());
        if ok {
            assert(since(start, w.deeds()).skip(1) =~= since(middle, w.deeds()));
        } else {
            assert(since(start, w.deeds()) =~= since(middle, w.deeds()));
        }
    }
    assert(backend_looked_up(t, backend_id, backend) && action == redirect_verdict(backend, ret));
    action
}

/// The backend of the flow was found in the first `k` steps, and the packet then
/// handed over, or passed and counted for want of one.
pub open spec fn balanced_after<T: LbTables>(
    t: &T,
    ifindex: u32,
    flow: FlowKey,
    group: u32,
    id: Option<u32>,
    k: int,
    deeds: Seq<Deed>,
    action: u32,
) -> bool {
    &&& 0 <= k <= deeds.len()
    &&& resolved(t, flow, group, deeds.take(k), id)
    &&& match id {
        Some(b) => redirected(t, ifindex, flow, b, deeds.skip(k), action),
        None => action == XDP_PASS && counted(t, CounterId::Passed, 1, deeds.skip(k)),
    }
}

/// Balances a packet over the backends of a group. A flow without a backend
/// passes.
pub fn apply_load_balance<T: LbTables, S: LbSink>(
    t: &T,
    w: &mut Trail<S>,
    ctx: &xdp_md,
    packet: &Packet,
    backend_group: u32,
) -> (r: u32)
    ensures
        extends(old(w).deeds(), final(w).deeds()),
        final(w).sink() == old(w).sink(),
        exists|id: Option<u32>, k: int| #[trigger]
            balanced_after(
                t,
                ctx.ingress_ifindex,
                packet.flow,
                backend_group,
                id,
                k,
                since(old(w).deeds(), final(w).deeds()),
                r,
            ),
{
    let ghost start = w.deeds();
    let id = resolve_backend_id(t, w, &packet.flow, backend_group);
    let ghost middle = w.deeds();
    let r: u32 = match id {
        Some(b) => redirect_backend(t, w, ctx, packet, b),
        None => {
            incr_counter(t, w, CounterId::Passed, 1);
            XDP_PASS
        },
    };
    proof {
        lemma_since(start, middle, w.deeds());
        let done = since(start, w.deeds());
        let k = since(start, middle).len() as int;
        assert(done.take(k) =~= since(start, middle));
        assert(done.skip(k) =~= since(middle, w.deeds()));
        assert(balanced_after(
            t,
            ctx.ingress_ifindex,
            packet.flow,
            backend_group,
            id,
            k,
            done,
            r,
        ));
    }
    r
}

// ---- Connection tracking ----

/// The state of a TCP connection after a segment with the given flags.
pub open spec fn next_state(state: ConntrackState, tcp_flags: u8) -> ConntrackState {
    if tcp_flags & TCP_RST != 0 {
        ConntrackState::Closed
    } else if state == ConntrackState::New && tcp_flags & TCP_ACK != 0 {
        ConntrackState::Established
    } else if state == ConntrackState::Established && tcp_flags & TCP_FIN != 0 {
        ConntrackState::Closing
    } else if state == ConntrackState::Closing && tcp_flags & TCP_ACK != 0 {
        ConntrackState::Closed
    } else {
        state
    }
}

/// Follows the TCP connection of an entry; other protocols have no state.
pub fn update_tcp_state(entry: &mut ConntrackValue, ip_proto: u8, tcp_flags: u8)
    ensures
        *final(entry) == if ip_proto == IP_PROTO_TCP {
            ConntrackValue {
                state: next_state(old(entry).state, tcp_flags),
                flags: tcp_flags as u32,
                ..*old(entry)
            }
        } else {
            *old(entry)
        },
{
    if ip_proto != IP_PROTO_TCP {
        return ;
    }
    if tcp_flags & TCP_RST != 0 {
        entry.state = ConntrackState::Closed;
    } else if entry.state == ConntrackState::New && tcp_flags & TCP_SYN != 0 && tcp_flags & TCP_ACK
        != 0 {
        entry.state = ConntrackState::Established;
    } else if entry.state == ConntrackState::New && tcp_flags & TCP_ACK != 0 {
        entry.state = ConntrackState::Established;
    } else if entry.state == ConntrackState::Established && tcp_flags & TCP_FIN != 0 {
        entry.state = ConntrackState::Closing;
    } else if entry.state == ConntrackState::Closing && tcp_flags & TCP_ACK != 0 {
        entry.state = ConntrackState::Closed;
    }
    entry.flags = tcp_flags as u32;
}

/// The entry of a flow seen for the first time.
pub open spec fn first_entry(p: Packet, now: u64) -> ConntrackValue {
    ConntrackValue {
        state: ConntrackState::New,
        flags: p.tcp_flags as u32,
        backend_id: INVALID_BACKEND_ID,
        _pad: 0,
        packets: 1,
        bytes: p.len,
        first_seen_ns: now,
        last_seen_ns: now,
    }
}

/// An entry after one more packet of its flow.
pub open spec fn next_entry(entry: ConntrackValue, p: Packet, now: u64) -> ConntrackValue {
    let tcp = p.flow.ip_proto == IP_PROTO_TCP;
    ConntrackValue {
        state: if tcp {
            next_state(entry.state, p.tcp_flags)
        } else {
            entry.state
        },
        flags: if tcp {
            p.tcp_flags as u32
        } else {
            entry.flags
        },
        last_seen_ns: now,
        packets: saturating_sum(entry.packets, 1),
        bytes: saturating_sum(entry.bytes, p.len),
        ..entry
    }
}

/// The entry of a flow seen for the first time.
pub fn new_connection(packet: &Packet, now: u64) -> (r: ConntrackValue)
    ensures
        r == first_entry(*packet, now),
{
    ConntrackValue {
        state: ConntrackState::New,
        flags: packet.tcp_flags as u32,
        backend_id: INVALID_BACKEND_ID,
        _pad: 0,
        packets: 1,
        bytes: packet.len,
        first_seen_ns: now,
        last_seen_ns: now,
    }
}

/// An entry after one more packet of its flow.
pub fn touch_connection(entry: ConntrackValue, packet: &Packet, now: u64) -> (r: ConntrackValue)
    ensures
        r == next_entry(entry, *packet, now),
{
    let mut e = entry;
    e.last_seen_ns = now;
    e.packets = e.packets.saturating_add(1);
    e.bytes = e.bytes.saturating_add(packet.len);
    update_tcp_state(&mut e, packet.flow.ip_proto, packet.tcp_flags);
    e
}

/// The counter went up, and then the entry of the flow was stored once with the
/// given answer; nothing else was done.
pub open spec fn counted_then_stored<T: LbTables>(
    t: &T,
    flow: FlowKey,
    value: ConntrackValue,
    reply: i64,
    counter: CounterId,
    deeds: Seq<Deed>,
) -> bool {
    &&& deeds.len() >= 1
    &&& counted(t, counter, 1, deeds.drop_last())
    &&& deeds.last() == (Deed::Connection { flow, entry: value, reply })
}

/// What a packet makes of the entry of its flow, and which counter tells of it.
pub open spec fn tracking(entry: Option<ConntrackValue>, p: Packet, now: u64) -> (
    CounterId,
    ConntrackValue,
) {
    match entry {
        None => (CounterId::ConntrackMiss, first_entry(p, now)),
        Some(e) => (CounterId::ConntrackHit, next_entry(e, p, now)),
    }
}

/// The miss or hit was counted and the entry of the packet's flow made or
/// brought up to date, with nothing else; only a failure to store a new entry
/// is reported.
pub open spec fn tracked_flow<T: LbTables>(t: &T, p: Packet, deeds: Seq<Deed>, ok: bool) -> bool {
    exists|now: u64, entry: Option<ConntrackValue>, reply: i64|
        {
            &&& #[trigger] call_ensures(T::now, (t,), now)
            &&& #[trigger] call_ensures(T::connection, (t, p.flow), entry)
            &&& #[trigger] counted_then_stored(
                t,
                p.flow,
                tracking(entry, p, now).1,
                reply,
                tracking(entry, p, now).0,
                deeds,
            )
            &&& ok == (entry is Some || reply >= 0)
        }
}

/// Brings the connection table up to date with a packet.
pub fn update_conntrack<T: LbTables, S: LbSink>(t: &T, w: &mut Trail<S>, packet: &Packet) -> (ok:
    bool)
    ensures
        extends(old(w).deeds(), final(w).deeds()),
        final(w).sink() == old(w).sink(),
        tracked_flow(t, *packet, since(old(w).deeds(), final(w).deeds()), ok),
{
    let ghost start = w.deeds();
    let now: u64 = t.now();
    let entry = t.connection(packet.flow);
    assert(call_ensures(T::now, (t,), now) && call_ensures(T::connection, (t, packet.flow), entry));
    let (counter, value, found) = match entry {
        None => (CounterId::ConntrackMiss, new_connection(packet, now), false),
        Some(e) => (CounterId::ConntrackHit, touch_connection(e, packet, now), true),
    };
    incr_counter(t, w, counter, 1);
    let ghost middle = w.deeds();
    let reply: i64 = w.store_connection(packet.flow, value);
    proof {
        lemma_push(middle, Deed::Connection { flow: packet.flow, entry: value, reply });
        lemma_since(start, middle, w.deeds());
        assert(since(start, w.deeds()).drop_last() =~= since(start, middle));
        assert(counted_then_stored(
            t,
            packet.flow,
            tracking(entry, *packet, now).1,
            reply,
            tracking(entry, *packet, now).0,
            since(start, w.deeds()),
        ));
    }
    found || reply >= 0
}

// ---- Laws ----

/// How far a connection has come.
pub open spec fn progress(state: ConntrackState) -> int {
    match state {
        ConntrackState::New => 0,
        ConntrackState::Established => 1,
        ConntrackState::Closing => 2,
        ConntrackState::Closed => 3,
    }
}

/// A connection never goes back to an earlier state, a reset closes it in any
/// state, and a closed one stays closed.
pub proof fn connections_only_advance(state: ConntrackState, tcp_flags: u8)
    ensures
        progress(next_state(state, tcp_flags)) >= progress(state),
        tcp_flags & TCP_RST != 0 ==> next_state(state, tcp_flags) == ConntrackState::Closed,
        state == ConntrackState::Closed ==> next_state(state, tcp_flags) == ConntrackState::Closed,
{
}

/// A flow that starts anywhere in the table looks at every slot.
pub proof fn every_slot_is_tried(flow: FlowKey, id: u32)
    requires
        id < MAX_BACKENDS,
    ensures
        exists|i: int| 0 <= i < MAX_BACKENDS && #[trigger] slot_of(flow, i) == id,
{
    let start = flow_hash_of(flow) % MAX_BACKENDS;
    let i = if id >= start {
        id - start
    } else {
        id - start + 256
    };
    assert(slot_of(flow, i) == id);
}

/// A packet is redirected only to a backend that is healthy.
pub proof fn redirect_needs_healthy_backend(backend: Option<Backend>, ret: i64)
    ensures
        redirect_verdict(backend, ret) == XDP_REDIRECT ==> backend is Some
            && !backend->0.unhealthy(),
{
}

/// A flow keeps the backend of its entry while more of its packets arrive.
pub proof fn packets_keep_their_backend(entry: ConntrackValue, p: Packet, now: u64)
    ensures
        next_entry(entry, p, now).backend_id == entry.backend_id,
        next_entry(entry, p, now).first_seen_ns == entry.first_seen_ns,
{
}

/// The slot can serve the group: a backend on an interface, not marked
/// unhealthy by the lowest bit of its flags, of the group.
pub open spec fn serves(slot: Option<Backend>, group: u32) -> bool {
    slot matches Some(b) && b.ifindex != 0 && b.flags % 2 == 0 && b.backend_group == group
}

/// How many slots a number lies behind the slot that the flow's hash names,
/// round the table of 256.
pub open spec fn distance(flow: FlowKey, id: u32) -> int {
    let start = flow_hash_of(flow) % 256;
    if id >= start {
        id - start
    } else {
        256 + id - start
    }
}

/// The slot of a number was looked at, and it serves the group or not.
pub open spec fn slot_seen<T: LbTables>(t: &T, id: u32, group: u32, good: bool) -> bool {
    exists|slot: Option<Backend>|
        good == serves(slot, group) && #[trigger] call_ensures(T::backend, (t, id), slot)
}

proof fn lemma_slot_seen<T: LbTables>(t: &T, flow: FlowKey, group: u32, i: int, good: bool)
    requires
        0 <= i < 256,
        looked_at(t, flow, group, i, good),
    ensures
        slot_seen(t, slot_of(flow, i), group, good),
        slot_of(flow, i) < 256,
        distance(flow, slot_of(flow, i)) == i,
{
    let slot = choose|slot: Option<Backend>|
        good == eligible_backend(slot, group) && #[trigger] call_ensures(
            T::backend,
            (t, slot_of(flow, i)),
            slot,
        );
    assert(good == serves(slot, group));
}

/// A chosen backend can serve the group, and no slot nearer behind the one that
/// the flow's hash names can. Where there are backends and none is chosen, no
/// slot of the 256 can.
pub proof fn nearest_serving_backend_is_chosen<T: LbTables>(
    t: &T,
    flow: FlowKey,
    group: u32,
    id: Option<u32>,
    other: u32,
)
    requires
        chosen(t, flow, group, id),
        forall|meta: Option<LbMeta>| #[trigger]
            call_ensures(T::meta, (t,), meta) ==> meta is Some && meta->0.num_backends > 0,
        other < 256,
    ensures
        id matches Some(n) ==> n < 256 && slot_seen(t, n, group, true) && (distance(flow, other)
            < distance(flow, n) ==> slot_seen(t, other, group, false)),
        id is None ==> slot_seen(t, other, group, false),
{
    let d = distance(flow, other);
    assert(slot_of(flow, d) == other);
    match id {
        Some(b) => {
            let n = choose|n: int|
                {
                    &&& 0 <= n < MAX_BACKENDS
                    &&& b == slot_of(flow, n)
                    &&& #[trigger] looked_at(t, flow, group, n, true)
                    &&& forall|i: int| 0 <= i < n ==> #[trigger] looked_at(t, flow, group, i, false)
                };
            lemma_slot_seen(t, flow, group, n, true);
            if d < n {
                lemma_slot_seen(t, flow, group, d, false);
            }
        },
        None => {
            assert(looked_at(t, flow, group, d, false));
            lemma_slot_seen(t, flow, group, d, false);
        },
    }
}

/// A flow without an entry has no backend, one with a backend keeps it, and
/// neither changes anything. One without a backend gets the chosen one into its
/// entry, of which nothing else changes.
pub proof fn flows_keep_their_backend<T: LbTables>(
    t: &T,
    flow: FlowKey,
    group: u32,
    deeds: Seq<Deed>,
    r: Option<u32>,
    entry: Option<ConntrackValue>,
)
    requires
        resolved(t, flow, group, deeds, r),
        forall|e: Option<ConntrackValue>| #[trigger]
            call_ensures(T::connection, (t, flow), e) ==> e == entry,
    ensures
        entry is None ==> r is None && deeds.len() == 0,
        entry matches Some(e) ==> e.backend_id != 0xffff_ffff ==> r == Some(e.backend_id)
            && deeds.len() == 0,
        entry matches Some(e) ==> e.backend_id == 0xffff_ffff ==> {
            &&& chosen(t, flow, group, r)
            &&& r is None ==> deeds.len() == 0
            &&& r matches Some(id) ==> deeds.len() >= 1 && (deeds[0] matches Deed::Connection {
                flow: f,
                entry: n,
                ..
            } && f == flow && n.backend_id == id && n.state == e.state && n.flags == e.flags
                && n.packets == e.packets && n.bytes == e.bytes && n.first_seen_ns
                == e.first_seen_ns && n.last_seen_ns == e.last_seen_ns)
        },
{
}

/// The state of a connection: an acknowledgement (16) establishes a new one, the
/// end of the stream (1) makes an established one close, a further
/// acknowledgement closes it, a reset (4) closes any, and nothing else changes
/// it.
pub proof fn flags_move_the_state(state: ConntrackState, flags: u8)
    ensures
        flags & 4 != 0 ==> next_state(state, flags) == ConntrackState::Closed,
        flags & 4 == 0 && flags & 16 != 0 ==> next_state(ConntrackState::New, flags)
            == ConntrackState::Established && next_state(ConntrackState::Closing, flags)
            == ConntrackState::Closed,
        flags & 4 == 0 && flags & 1 != 0 ==> next_state(ConntrackState::Established, flags)
            == ConntrackState::Closing,
        flags & 4 == 0 && flags & 16 == 0 ==> next_state(ConntrackState::New, flags)
            == ConntrackState::New && next_state(ConntrackState::Closing, flags)
            == ConntrackState::Closing,
        flags & 4 == 0 && flags & 1 == 0 ==> next_state(ConntrackState::Established, flags)
            == ConntrackState::Established,
        next_state(ConntrackState::Closed, flags) == ConntrackState::Closed,
{
}

/// A packet leaves one entry of its flow: a new one with one packet, its length
/// and no backend where there was none, else the old one with one packet and its
/// length more, the time moved on, and the state followed for TCP. The first is
/// counted by the counter 6, the second by the counter 5.
pub proof fn packets_are_tracked<T: LbTables>(
    t: &T,
    p: Packet,
    deeds: Seq<Deed>,
    ok: bool,
    entry: Option<ConntrackValue>,
    now: u64,
)
    requires
        tracked_flow(t, p, deeds, ok),
        forall|e: Option<ConntrackValue>| #[trigger]
            call_ensures(T::connection, (t, p.flow), e) ==> e == entry,
        forall|n: u64| #[trigger] call_ensures(T::now, (t,), n) ==> n == now,
        forall|id: u32, slot: Option<u64>| #[trigger]
            call_ensures(T::counter, (t, id), slot) ==> slot == Some(0u64),
    ensures
        deeds.len() == 2,
        deeds[0] == (Deed::Counter {
            id: if entry is None {
                6
            } else {
                5
            },
            value: 1,
        }),
        deeds[1] matches Deed::Connection { flow, entry: n, reply } && {
            &&& flow == p.flow
            &&& n.last_seen_ns == now
            &&& ok == (entry is Some || reply >= 0)
            &&& entry is None ==> n.state == ConntrackState::New && n.packets == 1 && n.bytes
                == p.len && n.first_seen_ns == now && n.backend_id == 0xffff_ffff && n.flags
                == p.tcp_flags
            &&& entry matches Some(e) ==> {
                &&& n.packets == e.packets + 1 || e.packets == u64::MAX && n.packets == u64::MAX
                &&& n.bytes == e.bytes + p.len || e.bytes + p.len > u64::MAX && n.bytes == u64::MAX
                &&& n.first_seen_ns == e.first_seen_ns && n.backend_id == e.backend_id
                &&& p.flow.ip_proto == 6 ==> n.state == next_state(e.state, p.tcp_flags) && n.flags
                    == p.tcp_flags
                &&& p.flow.ip_proto != 6 ==> n.state == e.state && n.flags == e.flags
            }
        },
{
    let (n, e, reply) = choose|now: u64, entry: Option<ConntrackValue>, reply: i64|
        {
            &&& #[trigger] call_ensures(T::now, (t,), now)
            &&& #[trigger] call_ensures(T::connection, (t, p.flow), entry)
            &&& #[trigger] counted_then_stored(
                t,
                p.flow,
                tracking(entry, p, now).1,
                reply,
                tracking(entry, p, now).0,
                deeds,
            )
            &&& ok == (entry is Some || reply >= 0)
        };
    let head = deeds.drop_last();
    assert(head.len() == 1);
    assert(deeds[0] == head[0]);
    assert(deeds[1] == deeds.last());
}

/// A packet is handed over, once, only to a healthy backend within the table;
/// the verdict is 4 exactly if the hand-over answered 4, and else 2. The
/// counters tell which: 21 and 2 where there is no such backend, 22 where the
/// hand-over failed, 4 where it worked, else 2.
pub proof fn packets_are_handed_over<T: LbTables>(
    t: &T,
    ifindex: u32,
    flow: FlowKey,
    backend_id: u32,
    deeds: Seq<Deed>,
    action: u32,
    slot: Option<Backend>,
)
    requires
        redirected(t, ifindex, flow, backend_id, deeds, action),
        forall|s: Option<Backend>| #[trigger]
            call_ensures(T::backend, (t, backend_id), s) ==> s == slot,
        blank(t),
        roomy(deeds),
    ensures
        ({
            let good = backend_id < 256 && slot is Some && slot->0.ifindex != 0 && slot->0.flags % 2
                == 0;
            if good {
                deeds.len() >= 1 && (deeds[0] matches Deed::Redirect { backend_id: b, reply }
                    && b == backend_id && action == (if reply == 4 {
                    4u32
                } else {
                    2
                }) && marks(deeds) == if reply < 0 {
                    seq![Mark::Counted(22, 1)]
                } else if reply == 4 {
                    seq![
                        Mark::Counted(4, 1),
                        Mark::Told {
                            kind: EventKind::BackendSelected,
                            ifindex,
                            flow,
                            aux0: backend_id as u64,
                            aux1: 0,
                        },
                    ]
                } else {
                    seq![Mark::Counted(2, 1)]
                })
            } else {
                action == 2 && marks(deeds) == seq![Mark::Counted(21, 1), Mark::Counted(2, 1)]
            }
        }),
{
    let (backend, ret) = choose|backend: Option<Backend>, ret: i64|
        {
            &&& #[trigger] backend_looked_up(t, backend_id, backend)
            &&& action == #[trigger] redirect_verdict(backend, ret)
            &&& if usable(backend) {
                &&& deeds.len() >= 1
                &&& deeds[0] == (Deed::Redirect { backend_id, reply: ret })
                &&& all_performed(
                    t,
                    ifindex,
                    flow,
                    redirect_effects(backend, backend_id, ret),
                    deeds.skip(1),
                )
            } else {
                all_performed(t, ifindex, flow, redirect_effects(backend, backend_id, ret), deeds)
            }
        };
    let e = redirect_effects(backend, backend_id, ret);
    if usable(backend) {
        let rest = deeds.skip(1);
        assert forall|i: int| 0 <= i < rest.len() implies match #[trigger] rest[i] {
            Deed::Room { made, .. } => made,
            _ => true,
        } by {
            assert(rest[i] == deeds[i + 1]);
        }
        lemma_marks_of(t, ifindex, flow, e, rest);
        let one = deeds.take(1);
        assert(one + rest =~= deeds);
        lemma_marks_add(one, rest);
        reveal_with_fuel(marks, 2);
        assert(one.drop_last() =~= Seq::empty());
        assert(marks(one) =~= Seq::empty());
        assert(marks(deeds) =~= marks_of(e, ifindex, flow));
    } else {
        lemma_marks_of(t, ifindex, flow, e, deeds);
    }
    if e.len() == 1 {
        assert(marks_of(e, ifindex, flow) =~= seq![mark_of(e[0], ifindex, flow)]);
    } else {
        assert(marks_of(e, ifindex, flow) =~= seq![
            mark_of(e[0], ifindex, flow),
            mark_of(e[1], ifindex, flow),
        ]);
    }
}

/// A packet of a flow that has a healthy backend is handed to that one and to no
/// other, and one of a flow without an entry passes.
pub proof fn known_flows_go_to_their_backend<T: LbTables>(
    t: &T,
    ifindex: u32,
    flow: FlowKey,
    group: u32,
    id: Option<u32>,
    k: int,
    deeds: Seq<Deed>,
    action: u32,
    entry: Option<ConntrackValue>,
    slot: Option<Backend>,
)
    requires
        balanced_after(t, ifindex, flow, group, id, k, deeds, action),
        forall|e: Option<ConntrackValue>| #[trigger]
            call_ensures(T::connection, (t, flow), e) ==> e == entry,
        entry matches Some(e) ==> {
            &&& e.backend_id < 256
            &&& forall|s: Option<Backend>| #[trigger]
                call_ensures(T::backend, (t, e.backend_id), s) ==> s == slot
            &&& slot is Some && slot->0.ifindex != 0 && slot->0.flags % 2 == 0
        },
    ensures
        entry matches Some(e) ==> deeds.len() >= 1 && (deeds[0] matches Deed::Redirect {
            backend_id,
            reply,
        } && backend_id == e.backend_id && action == (if reply == 4 {
            4u32
        } else {
            2
        })),
        entry is None ==> action == 2,
{
    flows_keep_their_backend(t, flow, group, deeds.take(k), id, entry);
    if let Some(e) = entry {
        assert(k == 0);
        let rest = deeds.skip(k);
        assert(rest =~= deeds);
        let (backend, ret) = choose|backend: Option<Backend>, ret: i64|
            {
                &&& #[trigger] backend_looked_up(t, e.backend_id, backend)
                &&& action == #[trigger] redirect_verdict(backend, ret)
                &&& if usable(backend) {
                    &&& rest.len() >= 1
                    &&& rest[0] == (Deed::Redirect { backend_id: e.backend_id, reply: ret })
                    &&& all_performed(
                        t,
                        ifindex,
                        flow,
                        redirect_effects(backend, e.backend_id, ret),
                        rest.skip(1),
                    )
                } else {
                    all_performed(
                        t,
                        ifindex,
                        flow,
                        redirect_effects(backend, e.backend_id, ret),
                        rest,
                    )
                }
            };
        assert(backend == slot);
    }
}

} // verus!
