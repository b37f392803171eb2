use std::cell::RefCell;
use std::collections::HashMap;

use pulsar::balance::{
    apply_load_balance, decide_redirect, flow_hash, is_eligible, lookup_backend, lookup_lb_service,
    meta_num_backends, redirect_backend, resolve_backend_id, select_backend, touch_connection,
    update_conntrack, update_tcp_state, new_connection, LbTables,
};
use pulsar::maps::{
    xdp_md, Backend, ConntrackState, ConntrackValue, CounterId, Event, EventKind, FlowKey,
    L4AclKey, L4AclValue, LbMeta, LbService, LbServiceKey, Packet, RateLimitKey, RateLimitValue,
    VlanAclKey, VlanAclValue, VlanTag, INVALID_BACKEND_ID, TCP_ACK, TCP_FIN, TCP_RST, TCP_SYN,
    XDP_PASS, XDP_REDIRECT,
};
use pulsar::trail::{LbSink, Sink, Trail};
use pulsar::xdp::{Effect, Tables};

#[derive(Default)]
struct Machine {
    backends: HashMap<u32, Backend>,
    services: HashMap<(u16, u8), LbService>,
    connections: RefCell<HashMap<u16, ConntrackValue>>,
    counters: RefCell<HashMap<u32, u64>>,
    events: RefCell<Vec<Event>>,
    done: RefCell<Vec<String>>,
    redirects: i64,
    full: bool,
}

impl Tables for Machine {
    fn rule(&self, _key: L4AclKey) -> Option<L4AclValue> {
        None
    }
    fn vlan_rule(&self, _key: VlanAclKey) -> Option<VlanAclValue> {
        None
    }
    fn bucket(&self, _key: RateLimitKey) -> Option<RateLimitValue> {
        None
    }
    fn now(&self) -> u64 {
        1000
    }
    fn counter(&self, id: u32) -> Option<u64> {
        Some(self.counters.borrow().get(&id).copied().unwrap_or(0))
    }
    fn event_mask(&self) -> Option<u64> {
        None
    }
}

impl Sink for Machine {
    fn store_bucket(&self, _key: RateLimitKey, _value: RateLimitValue) -> i64 {
        0
    }
    fn set_counter(&self, id: u32, value: u64) {
        self.done.borrow_mut().push(format!("counter {}", id));
        self.counters.borrow_mut().insert(id, value);
    }
    fn reserve(&self, _size: u64) -> bool {
        true
    }
    fn submit(&self, event: Event) {
        self.events.borrow_mut().push(event);
    }
}

impl LbTables for Machine {
    fn service(&self, key: LbServiceKey) -> Option<LbService> {
        self.services.get(&(key.port, key.proto)).copied()
    }
    fn meta(&self) -> Option<LbMeta> {
        if self.backends.is_empty() {
            None
        } else {
            Some(LbMeta { num_backends: self.backends.len() as u32, _pad: 0 })
        }
    }
    fn backend(&self, id: u32) -> Option<Backend> {
        self.backends.get(&id).copied()
    }
    fn connection(&self, flow: FlowKey) -> Option<ConntrackValue> {
        self.connections.borrow().get(&flow.src_port).copied()
    }
}

impl LbSink for Machine {
    fn store_connection(&self, flow: FlowKey, value: ConntrackValue) -> i64 {
        self.done.borrow_mut().push(format!("connection {}", value.backend_id));
        if self.full {
            return -1;
        }
        self.connections.borrow_mut().insert(flow.src_port, value);
        0
    }
    fn redirect(&self, backend_id: u32) -> i64 {
        self.done.borrow_mut().push(format!("redirect {}", backend_id));
        self.redirects
    }
}

impl Machine {
    fn count(&self, id: CounterId) -> u64 {
        self.counters.borrow().get(&id.code()).copied().unwrap_or(0)
    }
}

fn packet(tcp_flags: u8) -> Packet {
    Packet {
        flow: FlowKey {
            src_addr: [0, 0, 0, 0, 0, 0, 0, 0, 0, 0, 0, 0, 10, 0, 0, 1],
            dst_addr: [0, 0, 0, 0, 0, 0, 0, 0, 0, 0, 0, 0, 10, 0, 0, 2],
            src_port: 1234,
            dst_port: 80,
            family: 4,
            ip_proto: 6,
        },
        len: 60,
        tcp_flags,
        is_fragment: false,
        payload_offset: 54,
        l3_offset: 14,
        l4_offset: 34,
        vlan_depth: 0,
        vlan: [VlanTag { id: 0, pcp: 0, dei: false }; 2],
    }
}

fn backend(group: u32, flags: u32) -> Backend {
    Backend { ifindex: 2, backend_group: group, flags, ..Backend::default() }
}

fn context() -> xdp_md {
    xdp_md {
        data: 0,
        data_end: 0,
        data_meta: 0,
        ingress_ifindex: 3,
        rx_queue_index: 0,
        egress_ifindex: 0,
    }
}

#[test]
fn the_hash_of_a_flow() {
    assert_eq!(flow_hash(&packet(0).flow), HASH);
}

const HASH: u32 = 0x5818c1cc;

#[test]
fn the_first_eligible_slot_is_chosen() {
    let flow = packet(0).flow;
    let start = HASH % 256;
    let mut m = Machine::default();
    assert_eq!(select_backend(&m, &flow, 1), None);
    m.backends.insert((start + 2) % 256, backend(1, 0));
    m.backends.insert((start + 1) % 256, backend(1, 1));
    m.backends.insert(start, backend(9, 0));
    assert_eq!(meta_num_backends(&m), 3);
    assert_eq!(select_backend(&m, &flow, 1), Some((start + 2) % 256));
    assert_eq!(select_backend(&m, &flow, 9), Some(start));
    assert_eq!(select_backend(&m, &flow, 5), None);
    // The slot before the first is the last to be tried.
    m.backends.insert((start + 255) % 256, backend(5, 0));
    assert_eq!(select_backend(&m, &flow, 5), Some((start + 255) % 256));
}

#[test]
fn eligible_backends() {
    assert!(is_eligible(Some(backend(1, 0)), 1));
    assert!(!is_eligible(Some(backend(1, 0)), 2));
    assert!(!is_eligible(Some(backend(1, 1)), 1));
    assert!(!is_eligible(Some(Backend::default()), 0));
    assert!(!is_eligible(None, 0));
}

#[test]
fn a_flow_keeps_its_backend() {
    let mut m = Machine::default();
    m.backends.insert(7, backend(1, 0));
    let flow = packet(0).flow;
    assert_eq!(resolve_backend_id(&m, &mut Trail::new(&m), &flow, 1), None);
    assert!(update_conntrack(&m, &mut Trail::new(&m), &packet(TCP_SYN)));
    assert_eq!(m.count(CounterId::ConntrackMiss), 1);
    assert_eq!(resolve_backend_id(&m, &mut Trail::new(&m), &flow, 1), Some(7));
    assert_eq!(m.count(CounterId::BackendSelected), 1);
    m.backends.insert(HASH % 256, backend(1, 0));
    assert_eq!(resolve_backend_id(&m, &mut Trail::new(&m), &flow, 1), Some(7));
    assert_eq!(m.count(CounterId::BackendSelected), 1);
}

#[test]
fn packets_are_handed_to_healthy_backends() {
    let mut m = Machine { redirects: XDP_REDIRECT as i64, ..Machine::default() };
    m.backends.insert(7, backend(1, 0));
    m.backends.insert(8, backend(1, 1));
    assert_eq!(redirect_backend(&m, &mut Trail::new(&m), &context(), &packet(0), 7), XDP_REDIRECT);
    assert_eq!(m.count(CounterId::Redirected), 1);
    assert_eq!(m.events.borrow()[0].kind, EventKind::BackendSelected);
    assert_eq!(m.events.borrow()[0].aux0, 7);
    assert_eq!(redirect_backend(&m, &mut Trail::new(&m), &context(), &packet(0), 8), XDP_PASS);
    assert_eq!(redirect_backend(&m, &mut Trail::new(&m), &context(), &packet(0), 300), XDP_PASS);
    assert_eq!(m.count(CounterId::BackendUnavailable), 2);
    m.redirects = -1;
    assert_eq!(redirect_backend(&m, &mut Trail::new(&m), &context(), &packet(0), 7), XDP_PASS);
    assert_eq!(m.count(CounterId::RedirectFailed), 1);
    assert_eq!(lookup_backend(&m, 7), Some(backend(1, 0)));
    assert_eq!(lookup_backend(&m, 9), None);
}

#[test]
fn balancing_needs_a_tracked_flow() {
    let mut m = Machine { redirects: XDP_REDIRECT as i64, ..Machine::default() };
    m.backends.insert(7, backend(1, 0));
    assert_eq!(apply_load_balance(&m, &mut Trail::new(&m), &context(), &packet(0), 1), XDP_PASS);
    assert_eq!(m.count(CounterId::Passed), 1);
    assert_eq!(*m.done.borrow(), vec![format!("counter {}", CounterId::Passed.code())]);
    update_conntrack(&m, &mut Trail::new(&m), &packet(TCP_SYN));
    m.done.borrow_mut().clear();
    assert_eq!(apply_load_balance(&m, &mut Trail::new(&m), &context(), &packet(0), 1), XDP_REDIRECT);
    assert_eq!(
        *m.done.borrow(),
        vec![
            "connection 7".to_string(),
            format!("counter {}", CounterId::BackendSelected.code()),
            "redirect 7".to_string(),
            format!("counter {}", CounterId::Redirected.code()),
        ]
    );
}

#[test]
fn redirect_decisions() {
    let (v, log) = decide_redirect(Some(backend(1, 0)), 3, 0);
    assert_eq!(v, XDP_PASS);
    assert_eq!(log, vec![Effect::Count { counter: CounterId::Passed, value: 1 }]);
    let (v, log) = decide_redirect(None, 3, 4);
    assert_eq!(v, XDP_PASS);
    assert_eq!(log.len(), 2);
}

#[test]
fn connections_are_followed() {
    let p = packet(TCP_SYN);
    let mut e = new_connection(&p, 5);
    assert_eq!((e.state, e.packets, e.bytes, e.backend_id), (ConntrackState::New, 1, 60, INVALID_BACKEND_ID));
    e = touch_connection(e, &packet(TCP_ACK), 9);
    assert_eq!((e.state, e.packets, e.bytes), (ConntrackState::Established, 2, 120));
    assert_eq!((e.first_seen_ns, e.last_seen_ns), (5, 9));
    e = touch_connection(e, &packet(TCP_FIN | TCP_ACK), 10);
    assert_eq!(e.state, ConntrackState::Closing);
    e = touch_connection(e, &packet(TCP_ACK), 11);
    assert_eq!(e.state, ConntrackState::Closed);
    let mut r = new_connection(&p, 5);
    update_tcp_state(&mut r, 6, TCP_RST);
    assert_eq!(r.state, ConntrackState::Closed);
    let mut u = new_connection(&p, 5);
    update_tcp_state(&mut u, 17, TCP_RST);
    assert_eq!(u, new_connection(&p, 5));
    let worn = ConntrackValue { packets: u64::MAX, ..u };
    assert_eq!(touch_connection(worn, &p, 6).packets, u64::MAX);
}

#[test]
fn a_full_table_is_reported() {
    let m = Machine { full: true, ..Machine::default() };
    assert!(!update_conntrack(&m, &mut Trail::new(&m), &packet(TCP_SYN)));
    m.connections.borrow_mut().insert(1234, new_connection(&packet(0), 0));
    assert!(update_conntrack(&m, &mut Trail::new(&m), &packet(TCP_ACK)));
    assert_eq!(m.count(CounterId::ConntrackHit), 1);
}

#[test]
fn services_are_looked_up_by_destination() {
    let mut m = Machine::default();
    let s = LbService {
        backend_group: 4,
        scheduler: 0,
        flags: 0,
        _pad: 0,
        vip_addr: [0; 16],
        vip_port: 0,
    };
    m.services.insert((80, 6), s);
    assert_eq!(lookup_lb_service(&m, &packet(0).flow).unwrap().backend_group, 4);
    let other = FlowKey { dst_port: 81, ..packet(0).flow };
    assert!(lookup_lb_service(&m, &other).is_none());
}
