use std::cell::RefCell;
use std::collections::HashMap;

use pulsar::acl_key::{parse_acl_addr, AclAddr, AclRule, Ipv4, PortSpec, Proto};
use pulsar::maps::{
    xdp_md, AclAction, CounterId, Event, EventKind, FlowKey, L4AclKey, L4AclValue, Packet,
    RateLimitKey, RateLimitValue, VlanAclKey, VlanAclValue, VlanTag, XDP_ABORTED, XDP_DROP,
    XDP_PASS,
};
use pulsar::xdp::{
    acl_action, acl_l4, apply_rate_limit, charge, check_vlan_acl, decide, event_enabled,
    incr_counter, ipv4_cidr_mask, ipv6_cidr_mask, min_u64, new_bucket, probe_key, xdp_dataplane,
    xdp_dataplane_inner, Effect, Replies, Tables,
};
use pulsar::trail::{Sink, Trail};

#[derive(Default)]
struct Machine {
    rules: HashMap<Vec<u8>, L4AclValue>,
    vlans: HashMap<(u16, u16), VlanAclValue>,
    buckets: RefCell<HashMap<([u8; 16], u32), RateLimitValue>>,
    counters: RefCell<HashMap<u32, u64>>,
    events: RefCell<Vec<Event>>,
    done: RefCell<Vec<String>>,
    mask: Option<u64>,
    time: RefCell<u64>,
    full: bool,
}

impl Tables for Machine {
    fn rule(&self, key: L4AclKey) -> Option<L4AclValue> {
        self.rules.get(&key.to_bytes().to_vec()).copied()
    }

    fn vlan_rule(&self, key: VlanAclKey) -> Option<VlanAclValue> {
        self.vlans.get(&(key.outer_vlan, key.inner_vlan)).copied()
    }

    fn bucket(&self, key: RateLimitKey) -> Option<RateLimitValue> {
        self.buckets.borrow().get(&(key.addr, key.rule_id)).copied()
    }

    fn now(&self) -> u64 {
        *self.time.borrow()
    }

    fn counter(&self, id: u32) -> Option<u64> {
        Some(self.counters.borrow().get(&id).copied().unwrap_or(0))
    }

    fn event_mask(&self) -> Option<u64> {
        self.mask
    }
}

impl Sink for Machine {
    fn store_bucket(&self, key: RateLimitKey, value: RateLimitValue) -> i64 {
        self.done.borrow_mut().push(format!("bucket {}", value.tokens));
        if self.full {
            return -7;
        }
        self.buckets.borrow_mut().insert((key.addr, key.rule_id), value);
        0
    }

    fn set_counter(&self, id: u32, value: u64) {
        self.done.borrow_mut().push(format!("counter {} {}", id, value));
        self.counters.borrow_mut().insert(id, value);
    }

    fn reserve(&self, _size: u64) -> bool {
        !self.full
    }

    fn submit(&self, event: Event) {
        self.done.borrow_mut().push(format!("event {}", event.kind.code()));
        self.events.borrow_mut().push(event);
    }
}

impl Machine {
    fn count(&self, id: CounterId) -> u64 {
        self.counters.borrow().get(&id.code()).copied().unwrap_or(0)
    }

    fn kinds(&self) -> Vec<EventKind> {
        self.events.borrow().iter().map(|e| e.kind).collect()
    }

    fn see(&self, frame: &[u8]) -> u32 {
        let ctx = xdp_md {
            data: 0,
            data_end: frame.len() as u32,
            data_meta: 0,
            ingress_ifindex: 3,
            rx_queue_index: 0,
            egress_ifindex: 0,
        };
        xdp_dataplane(self, &mut Trail::new(self), &ctx, frame)
    }
}

fn tcp_frame(tags: &[u16], frag: u16) -> Vec<u8> {
    let mut f = vec![0u8; 12];
    for t in tags {
        f.extend_from_slice(&[0x81, 0x00]);
        f.extend_from_slice(&t.to_be_bytes());
    }
    f.extend_from_slice(&[0x08, 0x00, 0x45, 0, 0, 0, 0, 0]);
    f.extend_from_slice(&frag.to_be_bytes());
    f.extend_from_slice(&[64, 6, 0, 0, 192, 168, 0, 221, 192, 168, 0, 202]);
    f.extend_from_slice(&1234u16.to_be_bytes());
    f.extend_from_slice(&80u16.to_be_bytes());
    f.extend_from_slice(&[0, 0, 0, 0, 0, 0, 0, 0, 0x50, 2, 0, 0, 0, 0, 0, 0]);
    f
}

fn rule(src: &str, dst: &str, sport: PortSpec, dport: PortSpec) -> Vec<u8> {
    AclRule {
        action: AclAction::Drop,
        src: AclAddr::V4(Ipv4::parse(src).unwrap()),
        dst: AclAddr::V4(Ipv4::parse(dst).unwrap()),
        proto: Proto::Tcp,
        sport,
        dport,
        tcp_flags: 0,
        rate: 0,
    }
    .build_key()
}

fn value(action: AclAction, rate: u32) -> L4AclValue {
    L4AclValue { action, rate, backend_group: 0, flags: 0 }
}

fn packet() -> Packet {
    Packet {
        flow: FlowKey {
            src_addr: [0, 0, 0, 0, 0, 0, 0, 0, 0, 0, 0, 0, 192, 168, 0, 221],
            dst_addr: [0, 0, 0, 0, 0, 0, 0, 0, 0, 0, 0, 0, 192, 168, 0, 202],
            src_port: 1234,
            dst_port: 80,
            family: 4,
            ip_proto: 6,
        },
        len: 54,
        tcp_flags: 2,
        is_fragment: false,
        payload_offset: 54,
        l3_offset: 14,
        l4_offset: 34,
        vlan_depth: 0,
        vlan: [VlanTag { id: 0, pcp: 0, dei: false }; 2],
    }
}

#[test]
fn a_packet_without_rules_is_allowed() {
    let m = Machine::default();
    assert_eq!(m.see(&tcp_frame(&[], 0)), XDP_PASS);
    assert_eq!(m.count(CounterId::RxIpv4), 1);
    assert_eq!(m.count(CounterId::RxTcp), 1);
    assert_eq!(m.count(CounterId::RxPackets), 1);
    assert_eq!(m.count(CounterId::RxBytes), 54);
    assert_eq!(m.count(CounterId::AclAllow), 1);
    assert_eq!(m.count(CounterId::Dropped), 0);
    assert_eq!(m.kinds(), vec![EventKind::PacketAllow]);
    assert_eq!(m.events.borrow()[0].ifindex, 3);
    assert_eq!(m.events.borrow()[0].flow.dst_port, 80);
}

#[test]
fn configured_rules_drop_their_packets() {
    let exact = PortSpec::Exact(80);
    for key in [
        rule("192.168.0.221", "192.168.0.202", PortSpec::Any, PortSpec::Any),
        rule("192.168.0.221", "192.168.0.202", PortSpec::Any, exact),
        rule("192.168.0.221", "192.168.0.202", PortSpec::Exact(1234), exact),
        rule("192.168.0.0/24", "192.168.0.202", PortSpec::Any, exact),
        rule("192.168.0.0/16", "192.168.0.202", PortSpec::Any, exact),
        rule("192.0.0.0/8", "192.168.0.202", PortSpec::Any, exact),
        rule("0.0.0.0/0", "192.168.0.202", PortSpec::Any, PortSpec::Any),
    ] {
        let mut m = Machine::default();
        m.rules.insert(key, value(AclAction::Drop, 0));
        assert_eq!(m.see(&tcp_frame(&[], 0)), XDP_DROP);
        assert_eq!(m.count(CounterId::Dropped), 1);
        assert_eq!(m.count(CounterId::AclDrop), 1);
        assert_eq!(m.kinds(), vec![EventKind::PacketDrop]);
    }
}

#[test]
fn rules_for_other_packets_do_not_match() {
    let mut m = Machine::default();
    let key = rule("192.168.0.221", "192.168.0.202", PortSpec::Any, PortSpec::Exact(81));
    m.rules.insert(key, value(AclAction::Drop, 0));
    assert_eq!(acl_l4(&m, &packet()), None);
    assert_eq!(m.see(&tcp_frame(&[], 0)), XDP_PASS);
}

#[test]
fn the_most_specific_rule_wins() {
    let mut m = Machine::default();
    let wide = rule("192.168.0.0/24", "192.168.0.202", PortSpec::Any, PortSpec::Any);
    let narrow = rule("192.168.0.221", "192.168.0.202", PortSpec::Any, PortSpec::Exact(80));
    m.rules.insert(wide, value(AclAction::Drop, 0));
    m.rules.insert(narrow, value(AclAction::Allow, 0));
    assert_eq!(acl_l4(&m, &packet()).unwrap().action, AclAction::Allow);
    assert_eq!(m.see(&tcp_frame(&[], 0)), XDP_PASS);
}

#[test]
fn fragments_skip_the_rules() {
    let mut m = Machine::default();
    let key = rule("192.168.0.221", "192.168.0.202", PortSpec::Any, PortSpec::Any);
    m.rules.insert(key, value(AclAction::Drop, 0));
    assert_eq!(m.see(&tcp_frame(&[], 0x2000)), XDP_PASS);
    assert_eq!(m.count(CounterId::RxPackets), 0);
}

#[test]
fn redirect_and_inspect_pass() {
    for action in [AclAction::Redirect, AclAction::Inspect] {
        let mut m = Machine::default();
        let key = rule("192.168.0.221", "192.168.0.202", PortSpec::Any, PortSpec::Any);
        m.rules.insert(key, value(action, 0));
        assert_eq!(m.see(&tcp_frame(&[], 0)), XDP_PASS);
        assert_eq!(m.count(CounterId::AclAllow), 0);
    }
}

#[test]
fn tagged_packets_meet_the_vlan_rules() {
    let mut m = Machine::default();
    m.vlans.insert((200, 100), VlanAclValue { action: AclAction::Drop, rate: 0 });
    assert_eq!(m.see(&tcp_frame(&[200, 100], 0)), XDP_DROP);
    assert_eq!(m.see(&tcp_frame(&[200, 101], 0)), XDP_PASS);
    assert_eq!(m.see(&tcp_frame(&[200], 0)), XDP_PASS);
    assert_eq!(m.count(CounterId::RxVlan), 3);
    m.vlans.insert((200, 0), VlanAclValue { action: AclAction::Allow, rate: 0 });
    // The rule for the outer tag alone comes first.
    assert_eq!(m.see(&tcp_frame(&[200, 100], 0)), XDP_PASS);
    let e = m.events.borrow()[0];
    assert_eq!((e.kind, e.aux0, e.aux1), (EventKind::VlanDetected, 200, 2));
    assert_eq!(check_vlan_acl(&m, &packet()), None);
}

#[test]
fn broken_and_foreign_frames() {
    let m = Machine::default();
    assert_eq!(m.see(&[0; 10]), XDP_ABORTED);
    assert_eq!(m.count(CounterId::ParseError), 1);
    let mut arp = vec![0u8; 12];
    arp.extend_from_slice(&[8, 6]);
    assert_eq!(m.see(&arp), XDP_PASS);
    assert_eq!(m.count(CounterId::Passed), 1);
}

#[test]
fn a_limited_rule_lets_only_so_many_through() {
    let mut m = Machine::default();
    let key = rule("192.168.0.221", "192.168.0.202", PortSpec::Any, PortSpec::Any);
    m.rules.insert(key, value(AclAction::Allow, 1));
    let frame = tcp_frame(&[], 0);
    let mut passed = 0;
    for _ in 0..300 {
        if m.see(&frame) == XDP_PASS {
            passed += 1;
        }
    }
    assert_eq!(passed, 256);
    assert_eq!(m.count(CounterId::RateLimited), 44);
    assert_eq!(m.count(CounterId::Dropped), 44);
    // One second earns one token.
    *m.time.borrow_mut() += 1_000_000_000;
    assert_eq!(m.see(&frame), XDP_PASS);
    assert_eq!(m.see(&frame), XDP_DROP);
}

#[test]
fn a_bucket_that_cannot_be_stored_stops_the_packet() {
    let m = Machine { full: true, ..Machine::default() };
    assert!(!apply_rate_limit(&m, &mut Trail::new(&m), &packet(), 0));
    assert_eq!(m.see(&tcp_frame(&[], 0)), XDP_DROP);
    assert!(m.events.borrow().is_empty());
}

#[test]
fn buckets() {
    let b = new_bucket(10, 5, 100);
    assert_eq!((b.tokens, b.last_refill_ns, b.packet_count, b.byte_count), (2559, 5, 1, 100));
    assert_eq!(new_bucket(0, 5, 100).tokens, 65_535);
    let (c, pass) = charge(b, 10, 5 + 500_000_000, 60);
    assert!(pass);
    // Five tokens came, the bucket holds 2560, one went.
    assert_eq!((c.tokens, c.packet_count, c.byte_count), (2559, 2, 160));
    assert_eq!(c.last_refill_ns, 500_000_005);
    let empty = RateLimitValue { tokens: 0, last_refill_ns: 0, packet_count: 0, byte_count: 0 };
    assert!(!charge(empty, 1, 999_999_999, 1).1);
    assert!(charge(empty, 1, 1_000_000_000, 1).1);
    // More than a second earns no more than a second.
    assert_eq!(charge(empty, 5, 60_000_000_000, 1).0.tokens, 4);
    assert_eq!(min_u64(3, 2), 2);
}

#[test]
fn events_are_masked() {
    let off = 1u64 << EventKind::PacketAllow.code();
    let m = Machine { mask: Some(!off), ..Machine::default() };
    assert_eq!(m.see(&tcp_frame(&[], 0)), XDP_PASS);
    assert!(m.events.borrow().is_empty());
    assert!(event_enabled(None, EventKind::SlowPath));
    assert!(!event_enabled(Some(0), EventKind::SlowPath));
}

#[test]
fn counters_wrap_at_nothing_but_their_size() {
    let m = Machine::default();
    let mut w = Trail::new(&m);
    incr_counter(&m, &mut w, CounterId::RxBytes, 40);
    incr_counter(&m, &mut w, CounterId::RxBytes, 2);
    assert_eq!(m.count(CounterId::RxBytes), 42);
}

#[test]
fn masks_of_prefixes() {
    assert_eq!(ipv4_cidr_mask(24), [255, 255, 255, 0]);
    assert_eq!(ipv4_cidr_mask(0), [0; 4]);
    assert_eq!(ipv4_cidr_mask(20), [0xff, 0xff, 0xf0, 0]);
    assert_eq!(ipv4_cidr_mask(32), [255; 4]);
    assert_eq!(ipv6_cidr_mask(128), [255; 16]);
    assert_eq!(ipv6_cidr_mask(32)[..5], [255, 255, 255, 255, 0]);
}

#[test]
fn probes_of_a_flow() {
    let flow = packet().flow;
    let k = probe_key(&flow, 1, 0);
    assert_eq!((k.prefix_len, k.dst_port, k.src_port, k.ip_proto), (336, 80, 1234, 6));
    let k = probe_key(&flow, 2, 1);
    assert_eq!((k.prefix_len, k.dst_port, k.src_port), (320, 80, 0));
    assert_eq!(&k.src_addr[12..], &[192, 168, 0, 0]);
    let k = probe_key(&flow, 4, 4);
    assert_eq!((k.prefix_len, k.ip_proto), (272, 0));
    assert_eq!(&k.dst_addr[12..], &[192, 0, 0, 0]);
}

#[test]
fn decisions_without_tables() {
    let p = packet();
    let r = Replies {
        vlan: None,
        vlan_within: true,
        rule: Some(value(AclAction::Drop, 0)),
        within: true,
    };
    let (verdict, effects) = decide(&p, &r);
    assert_eq!(verdict, XDP_DROP);
    assert_eq!(effects[0], Effect::Count { counter: CounterId::RxIpv4, value: 1 });
    assert_eq!(
        effects[effects.len() - 1],
        Effect::Emit { kind: EventKind::PacketDrop, aux0: 0, aux1: 0 }
    );
    assert_eq!(acl_action(None), (AclAction::Allow, 0));
}

#[test]
fn the_inner_program_works_in_order() {
    let m = Machine::default();
    let frame = tcp_frame(&[7], 0);
    let ctx = xdp_md {
        data: 0,
        data_end: frame.len() as u32,
        data_meta: 0,
        ingress_ifindex: 1,
        rx_queue_index: 0,
        egress_ifindex: 0,
    };
    assert_eq!(xdp_dataplane_inner(&m, &mut Trail::new(&m), &ctx, &frame).unwrap(), XDP_PASS);
    let count = |id: CounterId, n: u64| format!("counter {} {}", id.code(), n);
    let event = |kind: EventKind| format!("event {}", kind.code());
    assert_eq!(
        *m.done.borrow(),
        vec![
            count(CounterId::RxVlan, 1),
            event(EventKind::VlanDetected),
            count(CounterId::RxIpv4, 1),
            count(CounterId::RxTcp, 1),
            count(CounterId::RxPackets, 1),
            count(CounterId::RxBytes, 58),
            count(CounterId::AclAllow, 1),
            event(EventKind::PacketAllow),
            "bucket 65535".to_string(),
        ]
    );
}

#[test]
fn a_broken_frame_leaves_no_trace_but_its_counter() {
    let m = Machine::default();
    assert_eq!(m.see(&[0; 10]), XDP_ABORTED);
    assert_eq!(
        *m.done.borrow(),
        vec![format!("counter {} 1", CounterId::ParseError.code())]
    );
}

#[test]
fn a_drop_is_counted_once() {
    let mut m = Machine::default();
    let key = rule("192.168.0.221", "192.168.0.202", PortSpec::Any, PortSpec::Any);
    m.rules.insert(key, value(AclAction::Drop, 0));
    assert_eq!(m.see(&tcp_frame(&[], 0)), XDP_DROP);
    let line = format!("counter {} ", CounterId::AclDrop.code());
    assert_eq!(m.done.borrow().iter().filter(|d| d.starts_with(&line)).count(), 1);
}

#[test]
fn rules_of_either_family_are_probed() {
    let covered = |src: &str, flow_src: [u8; 16], family: u8, level: usize, m: usize, flags: u8| {
        let rule = AclRule {
            action: AclAction::Drop,
            src: parse_acl_addr(src).unwrap(),
            dst: parse_acl_addr(if family == 6 { "fe80::2" } else { "192.168.0.202" }).unwrap(),
            proto: Proto::Tcp,
            sport: PortSpec::Exact(1234),
            dport: PortSpec::Exact(80),
            tcp_flags: flags,
            rate: 0,
        };
        let mut flow = FlowKey { src_addr: flow_src, family, ..packet().flow };
        if family == 6 {
            flow.dst_addr = [0xfe, 0x80, 0, 0, 0, 0, 0, 0, 0, 0, 0, 0, 0, 0, 0, 2];
        }
        probe_key(&flow, level, m).to_bytes().to_vec() == rule.build_key()
    };
    let v4 = |a: u8, b: u8, c: u8, d: u8| [0, 0, 0, 0, 0, 0, 0, 0, 0, 0, 0, 0, a, b, c, d];
    let v6 = [0xfe, 0x80, 0, 1, 0, 0, 0, 0, 0, 0, 0, 0, 0, 0, 0, 9];
    assert!(covered("192.168.0.0/24", v4(192, 168, 0, 221), 4, 1, 1, 0));
    // A prefix inside a byte is met where the bits behind it are zero.
    assert!(covered("192.168.16.0/20", v4(192, 168, 16, 221), 4, 1, 1, 0));
    assert!(!covered("192.168.16.0/20", v4(192, 168, 17, 221), 4, 1, 1, 0));
    assert!(covered("fe80::/8", v6, 6, 1, 4, 0));
    assert!(covered("fe80::/16", v6, 6, 1, 3, 0));
    assert!(covered("fe80:1::/32", v6, 6, 1, 2, 0));
    assert!(!covered("fe80:2::/32", v6, 6, 1, 2, 0));
    assert!(covered("fe80:1::9", v6, 6, 1, 0, 0));
    // A rule with flags has the longest prefix.
    assert!(covered("192.168.0.0/24", v4(192, 168, 0, 221), 4, 0, 1, 2));
}
