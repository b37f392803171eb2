use pulsar::acl_key::{AclAddr, AclRule, Ipv4, PortSpec, Proto};
use pulsar::maps::{
    conntrack_map, counters_map, ecmp_hash, event_mask_map, events_map, flow_acl_map, ip_acl_map,
    lb_backends_map, lb_meta_map, rate_limit_map, AclAction, CounterId, EventKind, FlowKey,
    IpLpmKey, L4AclKey, MapKind, MapSpec, ACL_VALUE_SIZE, AF_INET, AF_INET6, Backend, BACKEND_SIZE,
    CONNTRACK_VALUE_SIZE, EVENT_SIZE, FLOW_KEY_SIZE, IP_LPM_FAMILY_BITS, IP_LPM_KEY_SIZE,
    IP_PROTO_TCP, IP_PROTO_UDP, L4_ACL_KEY_SIZE, RATE_LIMIT_KEY_SIZE, RATE_LIMIT_VALUE_SIZE,
};
use pulsar::records::{backend_to_bytes, service_key_to_bytes, service_val_to_bytes};

#[test]
fn test_struct_sizes() {
    assert_eq!(IP_LPM_KEY_SIZE, 24);
    assert_eq!(ACL_VALUE_SIZE, 16);
    assert_eq!(FLOW_KEY_SIZE, 40);
    assert_eq!(CONNTRACK_VALUE_SIZE, 48);
    assert_eq!(RATE_LIMIT_KEY_SIZE, 24);
    assert_eq!(RATE_LIMIT_VALUE_SIZE, 32);
    assert_eq!(BACKEND_SIZE, 48);
    assert_eq!(EVENT_SIZE, 72);
}

#[test]
fn encoded_records_have_their_sizes() {
    let backend = Backend { ifindex: 2, port: 80, ..Backend::default() };
    assert_eq!(backend_to_bytes(&backend).len(), BACKEND_SIZE as usize);
    let key = service_key_to_bytes(&[0; 16], 443, 6, AF_INET);
    assert_eq!(key.len(), 20);
    let value = service_val_to_bytes(3, 9);
    assert_eq!(value.len(), 28);
    assert_eq!(value[..8], [3, 0, 0, 0, 0, 9, 0, 0]);
    let rule = AclRule {
        action: AclAction::Drop,
        src: AclAddr::V4(Ipv4::parse("10.0.0.1").unwrap()),
        dst: AclAddr::V4(Ipv4::parse("10.0.0.2").unwrap()),
        proto: Proto::Tcp,
        sport: PortSpec::Any,
        dport: PortSpec::Any,
        tcp_flags: 0,
        rate: 0,
    };
    assert_eq!(rule.build_key().len(), L4_ACL_KEY_SIZE as usize);
    assert_eq!(rule.build_value().len(), ACL_VALUE_SIZE as usize);
}

#[test]
fn test_ip_lpm_key_ipv4() {
    let key = IpLpmKey::ipv4(24, [192, 168, 1, 0]);
    assert_eq!(key.prefix_len, IP_LPM_FAMILY_BITS + 24);
    assert_eq!(key.data.family, AF_INET);
    assert_eq!(&key.data.addr[0..4], &[192, 168, 1, 0]);
}

#[test]
fn test_flow_key_equality() {
    let k1 = FlowKey {
        src_addr: [10, 0, 0, 1, 0, 0, 0, 0, 0, 0, 0, 0, 0, 0, 0, 0],
        dst_addr: [10, 0, 0, 2, 0, 0, 0, 0, 0, 0, 0, 0, 0, 0, 0, 0],
        src_port: 1234,
        dst_port: 80,
        family: AF_INET,
        ip_proto: IP_PROTO_TCP,
    };
    let k2 = k1;
    assert_eq!(k1, k2);
}

#[test]
fn test_acl_action_discriminants() {
    assert_eq!(AclAction::Allow as u32, 0);
    assert_eq!(AclAction::Drop as u32, 1);
    assert_eq!(AclAction::Redirect as u32, 2);
    assert_eq!(AclAction::Inspect as u32, 3);
}

#[test]
fn action_codes_match_the_variants() {
    for a in [AclAction::Allow, AclAction::Drop, AclAction::Redirect, AclAction::Inspect] {
        assert_eq!(a.code(), a as u32);
    }
    assert_eq!(EventKind::PacketDrop.code(), 1);
    assert_eq!(EventKind::PacketAllow.code(), 8);
    assert_eq!(CounterId::RxPackets.code(), 0);
    assert_eq!(CounterId::RxVlan.code(), 26);
}

#[test]
fn ipv6_key_holds_the_whole_address() {
    let addr = [0x20, 1, 0xd, 0xb8, 0, 0, 0, 0, 0, 0, 0, 0, 0, 0, 0, 1];
    let key = IpLpmKey::ipv6(64, addr);
    assert_eq!(key.prefix_len, IP_LPM_FAMILY_BITS + 64);
    assert_eq!(key.data.family, AF_INET6);
    assert_eq!(key.data.addr, addr);
}

#[test]
fn l4_key_bytes_are_packed() {
    let key = L4AclKey {
        prefix_len: 336,
        family: 4,
        src_addr: [1; 16],
        dst_addr: [2; 16],
        ip_proto: 6,
        dst_port: 80,
        src_port: 1234,
        tcp_flags_mask: 3,
        tcp_flags_value: 4,
        _pad: 0,
        _pad2: 0,
    };
    let b = key.to_bytes();
    assert_eq!(&b[0..5], &[0x50, 1, 0, 0, 4]);
    assert_eq!(&b[5..21], &[1; 16]);
    assert_eq!(&b[21..37], &[2; 16]);
    assert_eq!(&b[37..48], &[6, 80, 0, 210, 4, 3, 4, 0, 0, 0, 0]);
}

#[test]
fn hash_is_the_same_both_ways() {
    let forward = FlowKey {
        src_addr: [10, 0, 0, 1, 0, 0, 0, 0, 0, 0, 0, 0, 0, 0, 0, 9],
        dst_addr: [10, 0, 0, 2, 0, 0, 0, 0, 0, 0, 0, 0, 0, 0, 0, 3],
        src_port: 1234,
        dst_port: 80,
        family: AF_INET,
        ip_proto: IP_PROTO_UDP,
    };
    let back = FlowKey {
        src_addr: forward.dst_addr,
        dst_addr: forward.src_addr,
        src_port: forward.dst_port,
        dst_port: forward.src_port,
        family: forward.family,
        ip_proto: forward.ip_proto,
    };
    assert_eq!(ecmp_hash(&forward), 0x482049a);
    assert_eq!(ecmp_hash(&forward), ecmp_hash(&back));
    let other = FlowKey { dst_port: 81, ..forward };
    assert_ne!(ecmp_hash(&forward), ecmp_hash(&other));
}

#[test]
fn map_specifications() {
    let same = |a: MapSpec, b: MapSpec| {
        a.kind == b.kind
            && a.key_size == b.key_size
            && a.value_size == b.value_size
            && a.max_entries == b.max_entries
            && a.flags == b.flags
    };
    assert!(same(ip_acl_map(), MapSpec::new(MapKind::LpmTrie, 24, 16, 65_536, 1)));
    assert!(same(flow_acl_map(), MapSpec::new(MapKind::Hash, 40, 16, 262_144, 0)));
    assert!(same(conntrack_map(), MapSpec::new(MapKind::LruPercpuHash, 40, 48, 1_048_576, 0)));
    assert!(same(rate_limit_map(), MapSpec::new(MapKind::PercpuHash, 24, 32, 262_144, 0)));
    assert!(same(lb_backends_map(), MapSpec::new(MapKind::Array, 4, 48, 256, 0)));
    assert!(same(lb_meta_map(), MapSpec::new(MapKind::Array, 4, 8, 1, 0)));
    assert!(same(events_map(), MapSpec::new(MapKind::Ringbuf, 0, 0, 16_777_216, 0)));
    assert!(same(event_mask_map(), MapSpec::new(MapKind::Array, 4, 8, 1, 0)));
    assert!(same(counters_map(), MapSpec::new(MapKind::PercpuArray, 4, 8, 32, 0)));
}
