use pulsar::daemon::config::{
    addr_block, default_action, default_any, default_tcp, flatten_addresses, AddrBlock, IpList, VlanSpec,
};
use pulsar::yaml::{parse_yaml, Yaml};

/// The addresses under `addresses` of a mapping, none where it has none.
fn addresses_under(m: Option<&Yaml>) -> Option<Vec<String>> {
    m.map(|m| match m.get("addresses") {
        Some(a) => flatten_addresses(a).unwrap(),
        None => Vec::new(),
    })
}

fn block(rule: &Yaml, name: &str) -> AddrBlock {
    let b = rule.get(name).unwrap();
    let addresses = addresses_under(Some(b)).unwrap();
    let list = |name: &str| addresses_under(b.get(name)).map(|addresses| IpList { addresses });
    addr_block(addresses, &list("ipv4"), &list("ipv6"), None)
}

#[test]
fn test_flat_addresses() {
    let yaml = r#"
src:
  addresses:
    - 192.168.0.2/32
    - 192.168.0.3/32
dst:
  addresses: [10.10.10.3]
"#;
    let rule = parse_yaml(yaml).unwrap();
    let src = block(&rule, "src");
    assert!(src.addresses.is_some());
    assert_eq!(src.addresses.unwrap().len(), 2);
    let dst = block(&rule, "dst");
    assert_eq!(dst.addresses.unwrap().len(), 1);
}

#[test]
fn test_single_string_address() {
    let yaml = r#"
src:
  addresses: 192.168.0.2/32
dst:
  addresses: 192.168.0.202/24
"#;
    let rule = parse_yaml(yaml).unwrap();
    let src = block(&rule, "src");
    assert_eq!(src.addresses.unwrap(), vec!["192.168.0.2/32".to_string()]);
    let dst = block(&rule, "dst");
    assert_eq!(dst.addresses.unwrap(), vec!["192.168.0.202/24".to_string()]);
}

#[test]
fn test_flat_addresses_with_ipv6() {
    let yaml = r#"
src:
  addresses: [0.0.0.0/0]
  ipv6:
    addresses: ["::/0"]
dst:
  addresses: [10.10.10.3]
  ipv6:
    addresses: ["::/0"]
"#;
    let rule = parse_yaml(yaml).unwrap();
    let src = block(&rule, "src");
    assert_eq!(src.addresses.unwrap().len(), 2);
    let dst = block(&rule, "dst");
    assert_eq!(dst.addresses.unwrap().len(), 2);
}

#[test]
fn test_nested_ipv4_still_works() {
    let yaml = r#"
src:
    ipv4:
      addresses: [192.168.0.2/32]
dst:
    ipv4:
      addresses: [0.0.0.0/0]
"#;
    let rule = parse_yaml(yaml).unwrap();
    let src = block(&rule, "src");
    let src_addrs = src.addresses.unwrap();
    assert_eq!(src_addrs.len(), 1);
    assert_eq!(src_addrs[0], "192.168.0.2/32");
}

#[test]
fn test_nested_sequence_addresses() {
    let yaml = r#"
src:
  addresses:
    - [fe80::/64]
dst:
  addresses:
    - [fe80::c274:2bff:fefa:720c]
"#;
    let rule = parse_yaml(yaml).unwrap();
    let src = block(&rule, "src");
    assert_eq!(src.addresses.unwrap(), vec!["fe80::/64".to_string()]);
    let dst = block(&rule, "dst");
    assert_eq!(dst.addresses.unwrap(), vec!["fe80::c274:2bff:fefa:720c".to_string()]);
}

#[test]
fn numbers_are_addresses_too() {
    let y = parse_yaml("[7, [8], a]").unwrap();
    assert_eq!(flatten_addresses(&y).unwrap(), vec!["7", "8", "a"]);
}

#[test]
fn bad_address_lists_are_refused() {
    let refused = |text: &str| flatten_addresses(&parse_yaml(text).unwrap()).unwrap_err();
    assert_eq!(refused("5"), "expected a sequence of addresses");
    assert_eq!(refused("[[a, b]]"), "expected string or single-element sequence for address");
    assert_eq!(refused("[true]"), "expected string or single-element sequence for address");
    assert_eq!(refused("[[[a]]]"), "invalid nested address element");
}

#[test]
fn an_empty_block_has_no_addresses() {
    let b = addr_block(Vec::new(), &None, &Some(IpList { addresses: Vec::new() }), None);
    assert!(b.addresses.is_none());
    assert!(b.ports.is_none());
}

#[test]
fn tags_of_a_rule() {
    assert_eq!(VlanSpec::Simple(300).iter(), vec![(300, None)]);
    let q = VlanSpec::QinQ { outer: 200, inner: vec![100, 101] };
    assert_eq!(q.iter(), vec![(200, Some(100)), (200, Some(101))]);
    assert!(VlanSpec::Empty.iter().is_empty());
}

#[test]
fn defaults_of_a_configuration() {
    assert_eq!(default_action(), "allow");
    assert_eq!(default_any(), "any");
    assert_eq!(default_tcp(), "tcp");
}

#[test]
fn a_text_that_is_not_yaml_is_refused() {
    assert!(parse_yaml("a: [1").is_err());
}

#[test]
fn tags_are_passed_through() {
    let y = parse_yaml("!t [a]").unwrap();
    assert!(y.as_sequence().is_some());
    assert!(matches!(y.untag(), Yaml::Sequence(_)));
    assert!(parse_yaml("a: 1").unwrap().is_mapping());
    assert!(parse_yaml("a: 1").unwrap().get("b").is_none());
}
