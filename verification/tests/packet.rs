use pulsar::maps::{ParseError, VlanTag};
use pulsar::packet::{
    packet_len, parse_ipv4, parse_ipv6, parse_l4, parse_packet, parse_vlan, read_u16_be,
    skip_extension_headers,
};

fn ethernet(kind: u16) -> Vec<u8> {
    let mut f = vec![0u8; 12];
    f.extend_from_slice(&kind.to_be_bytes());
    f
}

fn tcp(src_port: u16, dst_port: u16, flags: u8) -> Vec<u8> {
    let mut t = Vec::new();
    t.extend_from_slice(&src_port.to_be_bytes());
    t.extend_from_slice(&dst_port.to_be_bytes());
    t.extend_from_slice(&[0; 8]);
    t.push(0x50);
    t.push(flags);
    t.extend_from_slice(&[0; 6]);
    t
}

fn ipv4(proto: u8, frag: u16, src: [u8; 4], dst: [u8; 4]) -> Vec<u8> {
    let mut h = vec![0x45, 0, 0, 0, 0, 0];
    h.extend_from_slice(&frag.to_be_bytes());
    h.extend_from_slice(&[64, proto, 0, 0]);
    h.extend_from_slice(&src);
    h.extend_from_slice(&dst);
    h
}

fn ipv6(next: u8, src: [u8; 16], dst: [u8; 16]) -> Vec<u8> {
    let mut h = vec![0x60, 0, 0, 0, 0, 0, next, 64];
    h.extend_from_slice(&src);
    h.extend_from_slice(&dst);
    h
}

#[test]
fn tcp_over_ipv4() {
    let mut f = ethernet(0x0800);
    f.extend(ipv4(6, 0, [10, 0, 0, 1], [10, 0, 0, 2]));
    f.extend(tcp(1234, 80, 0x12));
    let p = parse_packet(&f, 0, f.len()).unwrap();
    assert_eq!(p.flow.src_addr, [0, 0, 0, 0, 0, 0, 0, 0, 0, 0, 0, 0, 10, 0, 0, 1]);
    assert_eq!(p.flow.dst_addr, [0, 0, 0, 0, 0, 0, 0, 0, 0, 0, 0, 0, 10, 0, 0, 2]);
    assert_eq!((p.flow.src_port, p.flow.dst_port), (1234, 80));
    assert_eq!((p.flow.family, p.flow.ip_proto), (4, 6));
    assert_eq!(p.tcp_flags, 0x12);
    assert_eq!(p.len, 54);
    assert!(!p.is_fragment);
    assert_eq!((p.l3_offset, p.l4_offset, p.payload_offset), (14, 34, 54));
    assert_eq!(p.vlan_depth, 0);
}

#[test]
fn offsets_count_from_the_start_of_the_memory() {
    let mut f = vec![9u8; 6];
    f.extend(ethernet(0x0800));
    f.extend(ipv4(17, 0, [1, 2, 3, 4], [5, 6, 7, 8]));
    f.extend_from_slice(&[0, 53, 0, 54, 0, 8, 0, 0]);
    let p = parse_packet(&f, 6, f.len()).unwrap();
    assert_eq!((p.l3_offset, p.l4_offset, p.payload_offset), (20, 40, 42));
    assert_eq!((p.flow.src_port, p.flow.dst_port), (53, 54));
    assert_eq!(p.len, 42);
}

#[test]
fn fragments_are_marked() {
    for frag in [0x2000u16, 1, 0x3fff] {
        let mut f = ethernet(0x0800);
        f.extend(ipv4(1, frag, [10, 0, 0, 1], [10, 0, 0, 2]));
        f.extend_from_slice(&[0; 8]);
        assert!(parse_packet(&f, 0, f.len()).unwrap().is_fragment);
    }
    let mut f = ethernet(0x0800);
    f.extend(ipv4(1, 0x4000, [10, 0, 0, 1], [10, 0, 0, 2]));
    f.extend_from_slice(&[0; 8]);
    assert!(!parse_packet(&f, 0, f.len()).unwrap().is_fragment);
}

#[test]
fn two_tags_are_read() {
    let mut f = ethernet(0x88a8);
    f.extend_from_slice(&[0xb0, 0xc8, 0x81, 0x00]);
    f.extend_from_slice(&[0x00, 0x64, 0x08, 0x00]);
    f.extend(ipv4(6, 0, [10, 0, 0, 1], [10, 0, 0, 2]));
    f.extend(tcp(1, 2, 0));
    let p = parse_packet(&f, 0, f.len()).unwrap();
    assert_eq!(p.vlan_depth, 2);
    assert_eq!(p.vlan[0], VlanTag { id: 200, pcp: 5, dei: true });
    assert_eq!(p.vlan[1], VlanTag { id: 100, pcp: 0, dei: false });
    assert_eq!(p.l3_offset, 22);
}

#[test]
fn a_third_tag_is_not_supported() {
    let mut f = ethernet(0x8100);
    for _ in 0..3 {
        f.extend_from_slice(&[0, 1, 0x81, 0x00]);
    }
    f.extend_from_slice(&[0; 60]);
    assert_eq!(parse_packet(&f, 0, f.len()).unwrap_err(), ParseError::Unsupported);
}

#[test]
fn extension_headers_are_passed() {
    let mut f = ethernet(0x86dd);
    f.extend(ipv6(0, [1; 16], [2; 16]));
    f.extend_from_slice(&[44, 0, 0, 0, 0, 0, 0, 0]);
    f.extend_from_slice(&[58, 0, 0, 0, 0, 0, 0, 0]);
    f.extend_from_slice(&[128, 0, 0, 0, 0, 0, 0, 0]);
    let p = parse_packet(&f, 0, f.len()).unwrap();
    assert_eq!((p.flow.family, p.flow.ip_proto), (6, 58));
    assert_eq!(p.flow.src_addr, [1; 16]);
    assert!(p.is_fragment);
    assert_eq!((p.l4_offset, p.payload_offset), (70, 78));
}

#[test]
fn other_protocols_are_unsupported() {
    let mut arp = ethernet(0x0806);
    arp.extend_from_slice(&[0; 28]);
    assert_eq!(parse_packet(&arp, 0, arp.len()).unwrap_err(), ParseError::Unsupported);
    let mut sctp = ethernet(0x0800);
    sctp.extend(ipv4(132, 0, [10, 0, 0, 1], [10, 0, 0, 2]));
    sctp.extend_from_slice(&[0; 20]);
    assert_eq!(parse_packet(&sctp, 0, sctp.len()).unwrap_err(), ParseError::Unsupported);
}

#[test]
fn broken_frames_are_malformed() {
    let short = vec![0u8; 13];
    assert_eq!(parse_packet(&short, 0, 13).unwrap_err(), ParseError::Malformed);
    assert_eq!(parse_packet(&short, 5, 4).unwrap_err(), ParseError::Malformed);
    let mut f = ethernet(0x0800);
    f.extend(ipv4(6, 0, [10, 0, 0, 1], [10, 0, 0, 2]));
    f.extend(tcp(1, 2, 0));
    assert_eq!(parse_packet(&f, 0, f.len() - 1).unwrap_err(), ParseError::Malformed);
    f[14] = 0x65;
    assert_eq!(parse_packet(&f, 0, f.len()).unwrap_err(), ParseError::Malformed);
    f[14] = 0x44;
    assert_eq!(parse_packet(&f, 0, f.len()).unwrap_err(), ParseError::Malformed);
    f[14] = 0x45;
    f[46] = 0x40;
    assert_eq!(parse_packet(&f, 0, f.len()).unwrap_err(), ParseError::Malformed);
    let mut tagged = ethernet(0x8100);
    tagged.extend_from_slice(&[0, 1]);
    assert_eq!(parse_packet(&tagged, 0, tagged.len()).unwrap_err(), ParseError::Malformed);
}

#[test]
fn pieces_of_a_frame() {
    assert_eq!(read_u16_be(&[1, 2, 3], 1), Ok(0x203));
    assert_eq!(read_u16_be(&[1, 2, 3], 2), Err(ParseError::Malformed));
    assert_eq!(packet_len(10, 25), Ok(15));
    assert_eq!(packet_len(10, 9), Err(ParseError::Malformed));
    let v = parse_vlan(&[0, 7, 0x08, 0x00], 0, 0x8100).unwrap();
    assert_eq!((v.offset, v.eth_proto), (4, 0x0800));
    let h = parse_l4(&tcp(5, 6, 2), 0, 6).unwrap();
    assert_eq!((h.src_port, h.dst_port, h.tcp_flags, h.len), (5, 6, 2, 20));
    let e = skip_extension_headers(&[6, 0, 0, 0, 0, 0, 0, 0], 60, 0).unwrap();
    assert_eq!((e.ip_proto, e.offset, e.is_fragment), (6, 8, false));
    let mut f = ipv4(17, 0, [1, 2, 3, 4], [5, 6, 7, 8]);
    f.extend_from_slice(&[0; 8]);
    assert_eq!(parse_ipv4(&f, 0, 0, 28).unwrap().flow.ip_proto, 17);
    let mut g = ipv6(17, [1; 16], [2; 16]);
    g.extend_from_slice(&[0; 8]);
    assert_eq!(parse_ipv6(&g, 0, 0, 48).unwrap().flow.family, 6);
}
