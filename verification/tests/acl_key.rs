use pulsar::acl_key::{parse_acl_addr, AclAddr, AclRule, Ipv4, Ipv6, PortSpec, Proto};
use pulsar::maps::AclAction;

/// Drop TCP 192.168.0.221 -> 192.168.0.202 (any port).
/// With CIDR /32: prefix_len = 304 bits (38 bytes)
#[test]
fn test_drop_any_port_matches_notes() {
    let rule = AclRule {
        action: AclAction::Drop,
        src: AclAddr::V4(Ipv4::parse("192.168.0.221").unwrap()),
        dst: AclAddr::V4(Ipv4::parse("192.168.0.202").unwrap()),
        proto: Proto::Tcp,
        sport: PortSpec::Any,
        dport: PortSpec::Any,
        tcp_flags: 0,
        rate: 0,
    };

    let key = rule.build_key();
    assert_eq!(key.len(), 48, "l4_acl key must be exactly 48 bytes");
    // prefix_len = 304 little-endian -> 30 01 00 00
    assert_eq!(&key[0..4], &[0x30, 0x01, 0x00, 0x00]);
    // family right after prefix_len, MUST be 4, not 2
    assert_eq!(key[4], 4, "family MUST be 4, not 2");
    // src_addr in bytes 5..21, IPv4 in position 12..15 (standard IPv6 format)
    assert_eq!(&key[17..21], &[192, 168, 0, 221], "src in position 12..15");
    // dst_addr in bytes 21..37, IPv4 in position 12..15
    assert_eq!(&key[33..37], &[192, 168, 0, 202], "dst in position 12..15");
    assert_eq!(key[37], 6); // ip_proto = tcp
    assert_eq!(&key[38..40], &[0, 0]); // dst_port = 0 (any)
    assert_eq!(&key[40..42], &[0, 0]); // src_port = 0 (any)

    // value = 16 bytes, action=Drop(1) LE, rate=0
    let val = rule.build_value();
    assert_eq!(val.len(), 16);
    assert_eq!(&val[0..4], &[1, 0, 0, 0]);
    assert_eq!(&val[4..8], &[0, 0, 0, 0]); // rate = 0
}

/// Drop TCP src 192.168.0.221:1234 -> dst 192.168.0.202:80 (exact port).
/// Prefix = 304 + 2 (dst_port) + 2 (src_port) = 336 bits.
#[test]
fn test_exact_port_prefix_336() {
    let rule = AclRule {
        action: AclAction::Drop,
        src: AclAddr::V4(Ipv4::parse("192.168.0.221").unwrap()),
        dst: AclAddr::V4(Ipv4::parse("192.168.0.202").unwrap()),
        proto: Proto::Tcp,
        sport: PortSpec::Exact(1234),
        dport: PortSpec::Exact(80),
        tcp_flags: 0,
        rate: 0,
    };
    let key = rule.build_key();
    assert_eq!(key.len(), 48);
    // 336 LE = 50 01 00 00
    assert_eq!(&key[0..4], &[0x50, 0x01, 0x00, 0x00]);
    // dst_port = 80 LE -> [80, 0] (bytes 38..40, BEFORE src_port)
    assert_eq!(&key[38..40], &[80, 0]);
    // src_port = 1234 LE -> [210, 4] (bytes 40..42)
    assert_eq!(&key[40..42], &[210, 4]);
}

/// Drop TCP src :any -> dst :80. Key case: match on dst_port.
/// Prefix = 304 + 2 (dst_port) = 320 bits.
#[test]
fn test_any_src_exact_dst_port() {
    let rule = AclRule {
        action: AclAction::Drop,
        src: AclAddr::V4(Ipv4::parse("192.168.0.221").unwrap()),
        dst: AclAddr::V4(Ipv4::parse("192.168.0.202").unwrap()),
        proto: Proto::Tcp,
        sport: PortSpec::Any,
        dport: PortSpec::Exact(80),
        tcp_flags: 0,
        rate: 0,
    };
    let key = rule.build_key();
    assert_eq!(key.len(), 48);
    // 320 LE = 40 01 00 00
    assert_eq!(&key[0..4], &[0x40, 0x01, 0x00, 0x00]);
    // dst_port = 80 LE -> [80, 0]
    assert_eq!(&key[38..40], &[80, 0]); // dst_port = 80 (LE)
    assert_eq!(&key[40..42], &[0, 0]); // src_port = 0, but OUTSIDE prefix
}

#[test]
fn test_udp_proto() {
    let rule = AclRule {
        action: AclAction::Drop,
        src: AclAddr::V4(Ipv4::parse("10.0.0.1").unwrap()),
        dst: AclAddr::V4(Ipv4::parse("10.0.0.2").unwrap()),
        proto: Proto::Udp,
        sport: PortSpec::Any,
        dport: PortSpec::Any,
        tcp_flags: 0,
        rate: 0,
    };
    assert_eq!(rule.build_key()[37], 17);
}

#[test]
fn test_cidr_prefix() {
    // Test with CIDR /0 (match all)
    let rule = AclRule {
        action: AclAction::Drop,
        src: AclAddr::V4(Ipv4::parse("0.0.0.0/0").unwrap()),
        dst: AclAddr::V4(Ipv4::parse("192.168.0.202").unwrap()),
        proto: Proto::Tcp,
        sport: PortSpec::Any,
        dport: PortSpec::Any,
        tcp_flags: 0,
        rate: 0,
    };
    // src.prefix = 0, dst.prefix = 32
    // bytes = 34 (base) + 4 (dst) = 38, prefix_len = 304
    assert_eq!(rule.prefix_len(), 304);
}

#[test]
fn test_ipv4_cidr_prefixes() {
    // Test IPv4 dst CIDR /24 - should add 3 bytes (24 bits = 3 bytes)
    // base 34 + 3 = 37 bytes = 296 bits
    let rule = AclRule {
        action: AclAction::Drop,
        src: AclAddr::V4(Ipv4::parse("192.168.0.0/24").unwrap()),
        dst: AclAddr::V4(Ipv4::parse("10.0.0.0/24").unwrap()),
        proto: Proto::Tcp,
        sport: PortSpec::Any,
        dport: PortSpec::Any,
        tcp_flags: 0,
        rate: 0,
    };
    assert_eq!(
        rule.prefix_len(),
        296,
        "IPv4 /24 dst prefix should be 296 bits"
    );

    // Test IPv4 dst CIDR /16 - should add 2 bytes
    // base 34 + 2 = 36 bytes = 288 bits
    let rule = AclRule {
        action: AclAction::Drop,
        src: AclAddr::V4(Ipv4::parse("192.168.0.0/24").unwrap()),
        dst: AclAddr::V4(Ipv4::parse("10.0.0.0/16").unwrap()),
        proto: Proto::Tcp,
        sport: PortSpec::Any,
        dport: PortSpec::Any,
        tcp_flags: 0,
        rate: 0,
    };
    assert_eq!(
        rule.prefix_len(),
        288,
        "IPv4 /16 dst prefix should be 288 bits"
    );

    // Test IPv4 dst CIDR /8 - should add 1 byte
    // base 34 + 1 = 35 bytes = 280 bits
    let rule = AclRule {
        action: AclAction::Drop,
        src: AclAddr::V4(Ipv4::parse("192.168.0.0/24").unwrap()),
        dst: AclAddr::V4(Ipv4::parse("10.0.0.0/8").unwrap()),
        proto: Proto::Tcp,
        sport: PortSpec::Any,
        dport: PortSpec::Any,
        tcp_flags: 0,
        rate: 0,
    };
    assert_eq!(
        rule.prefix_len(),
        280,
        "IPv4 /8 dst prefix should be 280 bits"
    );

    // Test IPv4 dst CIDR /0 - should add 0 bytes (match all)
    // base 34 + 0 = 34 bytes = 272 bits
    let rule = AclRule {
        action: AclAction::Drop,
        src: AclAddr::V4(Ipv4::parse("192.168.0.0/24").unwrap()),
        dst: AclAddr::V4(Ipv4::parse("0.0.0.0/0").unwrap()),
        proto: Proto::Tcp,
        sport: PortSpec::Any,
        dport: PortSpec::Any,
        tcp_flags: 0,
        rate: 0,
    };
    assert_eq!(
        rule.prefix_len(),
        272,
        "IPv4 /0 dst prefix should be 272 bits"
    );
}

#[test]
fn test_ipv6_cidr_prefixes() {
    // Test IPv6 dst CIDR /128 - should add 4 bytes
    // base 34 + 4 = 38 bytes = 304 bits
    let rule = AclRule {
        action: AclAction::Drop,
        src: AclAddr::V6(Ipv6::parse("2001:db8::1/128").unwrap()),
        dst: AclAddr::V6(Ipv6::parse("2001:db8::2/128").unwrap()),
        proto: Proto::Tcp,
        sport: PortSpec::Any,
        dport: PortSpec::Any,
        tcp_flags: 0,
        rate: 0,
    };
    assert_eq!(
        rule.prefix_len(),
        304,
        "IPv6 /128 dst prefix should be 304 bits"
    );

    // Test IPv6 dst CIDR /64 - should add 0 bytes (base covers 96 bits)
    // base 34 + 0 = 34 bytes = 272 bits
    let rule = AclRule {
        action: AclAction::Drop,
        src: AclAddr::V6(Ipv6::parse("2001:db8::1/128").unwrap()),
        dst: AclAddr::V6(Ipv6::parse("2001:db8:0:0:0:0:0:0/64").unwrap()),
        proto: Proto::Tcp,
        sport: PortSpec::Any,
        dport: PortSpec::Any,
        tcp_flags: 0,
        rate: 0,
    };
    assert_eq!(
        rule.prefix_len(),
        272,
        "IPv6 /64 dst prefix should be 272 bits"
    );

    // Test IPv6 dst CIDR /96 - should add 0 bytes (base covers 96 bits)
    let rule = AclRule {
        action: AclAction::Drop,
        src: AclAddr::V6(Ipv6::parse("2001:db8::1/128").unwrap()),
        dst: AclAddr::V6(Ipv6::parse("2001:db8:0:1:0:0:0:0/96").unwrap()),
        proto: Proto::Tcp,
        sport: PortSpec::Any,
        dport: PortSpec::Any,
        tcp_flags: 0,
        rate: 0,
    };
    assert_eq!(
        rule.prefix_len(),
        272,
        "IPv6 /96 dst prefix should be 272 bits"
    );

    // Test IPv6 dst CIDR /112 - should add 2 bytes (112-96=16 bits = 2 bytes)
    // base 34 + 2 = 36 bytes = 288 bits
    let rule = AclRule {
        action: AclAction::Drop,
        src: AclAddr::V6(Ipv6::parse("2001:db8::1/128").unwrap()),
        dst: AclAddr::V6(Ipv6::parse("2001:db8:0:1:0:0:0:1/112").unwrap()),
        proto: Proto::Tcp,
        sport: PortSpec::Any,
        dport: PortSpec::Any,
        tcp_flags: 0,
        rate: 0,
    };
    assert_eq!(
        rule.prefix_len(),
        288,
        "IPv6 /112 dst prefix should be 288 bits"
    );
}

#[test]
fn addresses_are_read() {
    let a = Ipv4::parse("10.1.2.3/8").unwrap();
    assert_eq!(a.addr(), [10, 1, 2, 3]);
    assert_eq!(a.prefix_bits(), Some(8));
    assert_eq!(a.to_lpm(), [0, 0, 0, 0, 0, 0, 0, 0, 0, 0, 0, 0, 10, 0, 0, 0]);
    assert_eq!(a.to_mapped(), [0, 0, 0, 0, 0, 0, 0, 0, 0, 0, 0xff, 0xff, 10, 1, 2, 3]);
    assert_eq!(Ipv4::from_mapped(&a.to_mapped()).addr(), [10, 1, 2, 3]);
    let b = Ipv6::parse("2001:db8::1/33").unwrap();
    assert_eq!(b.prefix_bits(), Some(33));
    assert_eq!(b.addr(), [0x20, 1, 0xd, 0xb8, 0, 0, 0, 0, 0, 0, 0, 0, 0, 0, 0, 1]);
    assert_eq!(b.to_lpm(), [0x20, 1, 0xd, 0xb8, 0, 0, 0, 0, 0, 0, 0, 0, 0, 0, 0, 0]);
    assert_eq!(Ipv6::parse_addr("::").unwrap(), [0; 16]);
    assert_eq!(Ipv6::parse_addr("::1").unwrap()[15], 1);
    assert!(matches!(parse_acl_addr("::/0"), Ok(AclAddr::V6(_))));
    assert!(matches!(parse_acl_addr("0.0.0.0/0"), Ok(AclAddr::V4(_))));
}

#[test]
fn bad_addresses_are_refused() {
    assert!(Ipv4::parse("10.0.0").is_err());
    assert!(Ipv4::parse("10.0.0.256").is_err());
    assert!(Ipv4::parse("10.0.0.1/33").is_err());
    assert!(Ipv4::parse("10.0.0.1/x").is_err());
    assert!(Ipv6::parse("2001:db8::1/129").is_err());
    assert!(Ipv6::parse("1:2:3").is_err());
    assert!(Ipv6::parse("1::2::3").is_err());
    assert!(Ipv6::parse("g::1").is_err());
    assert!(Ipv6::parse("1:2:3:4:5:6:7:8::9").is_err());
}

#[test]
fn ports_and_protocols_are_read() {
    assert_eq!(PortSpec::parse("ANY"), Ok(PortSpec::Any));
    assert_eq!(PortSpec::parse("*"), Ok(PortSpec::Any));
    assert_eq!(PortSpec::parse("65535"), Ok(PortSpec::Exact(65535)));
    assert_eq!(
        PortSpec::parse("65536"),
        Err("invalid port: '65536' (expected number or 'any')".to_string())
    );
    assert_eq!(Proto::parse("TCP"), Ok(Proto::Tcp));
    assert_eq!(Proto::parse("udp"), Ok(Proto::Udp));
    assert_eq!(Proto::parse("icmp"), Ok(Proto::Icmp));
    assert_eq!(Proto::parse("icmpv6"), Ok(Proto::Icmpv6));
    assert!(Proto::parse("sctp").is_err());
    assert_eq!(Proto::Icmpv6.ip_proto(), 58);
    assert_eq!(Proto::Udp.name(), "udp");
    assert!(Proto::Icmp.is_portless());
    assert!(!Proto::Tcp.is_portless());
}

#[test]
fn network_of_a_network_is_itself() {
    let a = Ipv4::parse("10.255.129.3/17").unwrap();
    let lpm = a.to_lpm();
    assert_eq!(&lpm[12..16], &[10, 255, 128, 0]);
    let b = Ipv4 { addr: [lpm[12], lpm[13], lpm[14], lpm[15]], prefix: Some(17) };
    assert_eq!(b.to_lpm(), lpm);
}

#[test]
fn a_protocol_without_ports_has_none_in_the_key() {
    let rule = AclRule {
        action: AclAction::Allow,
        src: AclAddr::V4(Ipv4::parse("10.0.0.1").unwrap()),
        dst: AclAddr::V4(Ipv4::parse("10.0.0.2").unwrap()),
        proto: Proto::Icmp,
        sport: PortSpec::Exact(7),
        dport: PortSpec::Exact(8),
        tcp_flags: 0,
        rate: 5,
    };
    assert_eq!(rule.prefix_len(), 304);
    assert_eq!(&rule.build_key()[37..42], &[1, 0, 0, 0, 0]);
    assert_eq!(rule.build_value(), vec![0, 0, 0, 0, 5, 0, 0, 0, 0, 0, 0, 0, 0, 0, 0, 0]);
}

#[test]
fn flags_count_with_both_their_bytes() {
    let rule = |flags: u8, sport: PortSpec| AclRule {
        action: AclAction::Drop,
        src: AclAddr::V4(Ipv4::parse("10.0.0.0/8").unwrap()),
        dst: AclAddr::V4(Ipv4::parse("10.0.0.2").unwrap()),
        proto: Proto::Tcp,
        sport,
        dport: PortSpec::Exact(80),
        tcp_flags: flags,
        rate: 0,
    };
    assert_eq!(rule(2, PortSpec::Any).prefix_len(), 352);
    assert_eq!(rule(2, PortSpec::Exact(7)).prefix_len(), 352);
    assert_eq!(rule(0, PortSpec::Exact(7)).prefix_len(), 336);
}

#[test]
fn an_ipv6_rule_has_the_family_of_its_packets() {
    let rule = AclRule {
        action: AclAction::Drop,
        src: parse_acl_addr("fe80::1").unwrap(),
        dst: parse_acl_addr("fe80::2").unwrap(),
        proto: Proto::Tcp,
        sport: PortSpec::Any,
        dport: PortSpec::Any,
        tcp_flags: 0,
        rate: 0,
    };
    assert_eq!(rule.build_key()[4], 6);
}
