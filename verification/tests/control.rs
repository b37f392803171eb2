use std::cell::RefCell;

use pulsar::ctl::cli::{finish, get_opt, parse_endpoint as tool_endpoint, strip_opt, Shell};
use pulsar::ctl::client::{parse_acl_lines, parse_ip, Channel, Daemon};
use pulsar::ctl::monitor::{change_mask, event_kinds, parse_event_kind};
use pulsar::ctl::run::run;
use pulsar::acl_key::{AclAddr, Ipv4, PortSpec, Proto};
use pulsar::daemon::api::{handle_command, process_command};
use pulsar::daemon::args::{parse_args, Invocation};
use pulsar::daemon::attach::check_xdp_attached;
use pulsar::daemon::backend::{backend_to_hex, ifindex, ifindex_to_name, next_backend_id};
use pulsar::daemon::config::{
    AclConfig, AclRule, AddrBlock, Config, LoggingConfig, PortSpec as ConfigPort, VlanSpec,
};
use pulsar::daemon::host::{Host, LinkRecord, MapRecord, ProgRecord};
use pulsar::daemon::kernel::{map_lookup, map_update, open_map_by_name, Kernel, MapError};
use pulsar::daemon::maps::{
    acl_list, counter_id_from_u32, parse_action, parse_endpoint, parse_rule, sum_cells,
};
use pulsar::daemon::monitoring::{
    choose_events_map, event_kind_from_u32, event_name, get_events_map_for_prog, log_event,
    parse_event,
};
use pulsar::daemon::reload::{apply_config, event_mask_of, make_plan, Step};
use pulsar::daemon::service::service_list;
use pulsar::daemon::session::{Session, Writer};
use pulsar::display::format_ip;
use pulsar::maps::{Backend, EventKind};
use pulsar::protocol::{Command, Response};
use pulsar::records::{backend_from_bytes, backend_hex, backend_to_bytes, BackendSpec};

struct Table {
    id: u32,
    name: &'static str,
    rows: Vec<(Vec<u8>, Vec<u8>)>,
}

/// A machine with the maps of the daemon.
struct Machine {
    tables: RefCell<Vec<Table>>,
    cells: Vec<(u32, Vec<u64>)>,
    links: Vec<(u32, u32, u32)>,
    progs: Vec<(u32, &'static str, bool, u32, u64, Vec<u32>)>,
    percpu: bool,
    failing: bool,
    stuck: Option<Vec<u8>>,
    writes: RefCell<Vec<String>>,
}

/// The number of the counter map.
const COUNTERS: u32 = 11;

const NAMES: [&str; 11] = [
    "l4_acl",
    "counters",
    "conntrack",
    "rate_limit",
    "vlan_acl",
    "event_mask",
    "lb_backends",
    "lb_devmap",
    "lb_meta",
    "lb_services",
    "events",
];

fn machine() -> Machine {
    let tables = NAMES
        .iter()
        .enumerate()
        .map(|(i, n)| Table { id: 10 + i as u32, name: *n, rows: Vec::new() })
        .collect();
    Machine {
        tables: RefCell::new(tables),
        cells: Vec::new(),
        links: Vec::new(),
        progs: Vec::new(),
        percpu: true,
        failing: false,
        stuck: None,
        writes: RefCell::new(Vec::new()),
    }
}

impl Machine {
    fn note(&self, what: &str, id: u32) {
        let name = NAMES[id as usize - 10];
        self.writes.borrow_mut().push(format!("{} {}", what, name));
    }

    /// What was done to the maps since this was last asked.
    fn writes(&self) -> Vec<String> {
        self.writes.borrow_mut().split_off(0)
    }

    fn rows(&self, name: &str) -> Vec<(Vec<u8>, Vec<u8>)> {
        self.tables.borrow().iter().find(|t| t.name == name).unwrap().rows.clone()
    }
}

impl Kernel for Machine {
    fn next_map_id(&self, after: u32) -> Option<u32> {
        self.tables.borrow().iter().map(|t| t.id).filter(|i| *i > after).min()
    }

    fn map_name(&self, id: u32) -> Option<String> {
        self.tables.borrow().iter().find(|t| t.id == id).map(|t| t.name.to_string())
    }

    fn keys(&self, id: u32) -> Vec<Vec<u8>> {
        if id == COUNTERS {
            return self.cells.iter().map(|c| c.0.to_le_bytes().to_vec()).collect();
        }
        let tables = self.tables.borrow();
        let t = tables.iter().find(|t| t.id == id).unwrap();
        t.rows.iter().map(|r| r.0.clone()).collect()
    }

    fn is_percpu(&self, id: u32) -> bool {
        id == COUNTERS && self.percpu
    }

    fn lookup_percpu(&self, _id: u32, key: Vec<u8>) -> Result<Option<Vec<Vec<u8>>>, MapError> {
        if self.failing {
            return Err(MapError::Libbpf("cannot read".to_string()));
        }
        let cell = self.cells.iter().find(|c| c.0.to_le_bytes().to_vec() == key);
        Ok(cell.map(|c| c.1.iter().map(|x| x.to_le_bytes().to_vec()).collect()))
    }

    fn lookup(&self, id: u32, key: Vec<u8>) -> Result<Option<Vec<u8>>, MapError> {
        if id == COUNTERS {
            let cell = self.cells.iter().find(|c| c.0.to_le_bytes().to_vec() == key);
            return Ok(cell.map(|c| c.1[0].to_le_bytes().to_vec()));
        }
        let tables = self.tables.borrow();
        let t = tables.iter().find(|t| t.id == id).unwrap();
        Ok(t.rows.iter().find(|r| r.0 == key).map(|r| r.1.clone()))
    }

}

impl Writer for Machine {
    fn update(&self, id: u32, key: Vec<u8>, value: Vec<u8>) -> Result<(), MapError> {
        self.note("update", id);
        if self.failing {
            return Err(MapError::Libbpf("read only".to_string()));
        }
        let mut tables = self.tables.borrow_mut();
        let t = tables.iter_mut().find(|t| t.id == id).unwrap();
        t.rows.retain(|r| r.0 != key);
        t.rows.push((key, value));
        Ok(())
    }

    fn delete(&self, id: u32, key: Vec<u8>) -> Result<(), MapError> {
        self.note("delete", id);
        if self.stuck == Some(key.clone()) {
            return Err(MapError::Libbpf("busy".to_string()));
        }
        let mut tables = self.tables.borrow_mut();
        let t = tables.iter_mut().find(|t| t.id == id).unwrap();
        let before = t.rows.len();
        t.rows.retain(|r| r.0 != key);
        if t.rows.len() == before {
            Err(MapError::Libbpf("no such key".to_string()))
        } else {
            Ok(())
        }
    }
}

impl Host for Machine {
    fn load_config(&self, path: String) -> Result<Config, MapError> {
        if path == "missing.yml" {
            return Err(MapError::Io("no such file".to_string()));
        }
        Ok(sample_config())
    }

    fn if_nametoindex(&self, name: String) -> u32 {
        if name == "end0" {
            2
        } else {
            0
        }
    }

    fn if_indextoname(&self, ifindex: u32) -> Option<String> {
        if ifindex == 2 {
            Some("end0@end1".to_string())
        } else {
            None
        }
    }

    fn xdp_links(&self) -> Vec<LinkRecord> {
        self.links
            .iter()
            .map(|l| LinkRecord { id: l.0, prog_id: l.1, ifindex: l.2 })
            .collect()
    }

    fn programs(&self) -> Vec<ProgRecord> {
        self.progs
            .iter()
            .map(|p| ProgRecord {
                id: p.0,
                name: p.1.to_string(),
                xdp: p.2,
                ifindex: p.3,
                netns_ino: p.4,
                map_ids: p.5.clone(),
            })
            .collect()
    }

    fn netns_ino(&self) -> Option<u64> {
        Some(77)
    }

    fn maps(&self) -> Vec<MapRecord> {
        self.tables.borrow().iter().map(record_of).collect()
    }

    fn map_by_id(&self, id: u32) -> Option<MapRecord> {
        self.tables.borrow().iter().find(|t| t.id == id).map(record_of)
    }
}

fn record_of(t: &Table) -> MapRecord {
    MapRecord {
        id: t.id,
        name: Some(t.name.to_string()),
        ringbuf: t.name == "events",
        max_entries: 4096,
    }
}

impl Daemon for Machine {
    fn send(&self, command: Command) -> Result<Response, String> {
        Ok(handle_command(self, &mut Session::new(self), Ok(command), None))
    }
}

impl Shell for Machine {
    fn read_file(&self, path: String) -> Result<String, String> {
        match path.as_str() {
            "good.yml" => Ok(GOOD.to_string()),
            "bad.yml" => Ok("acl: [".to_string()),
            "short.yml" => Ok("acl: {}\n".to_string()),
            "list.yml" => Ok(GOOD.replace("addresses: [10.0.0.1]", "addresses: {a: b}")),
            _ => Err("no such file".to_string()),
        }
    }
}

const GOOD: &str = "acl:
  allow:
    - src: {addresses: [10.0.0.1]}
  drop: []
logging: {}
rate_limit: {}
monitoring: {}
";

fn block(addresses: &[&str], port: Option<(&str, &str)>) -> Option<AddrBlock> {
    Some(AddrBlock {
        addresses: Some(addresses.iter().map(|a| a.to_string()).collect()),
        ports: port
            .map(|(n, p)| ConfigPort { number: n.to_string(), proto: p.to_string() }),
    })
}

fn sample_config() -> Config {
    Config {
        acl: AclConfig {
            default_action: "allow".to_string(),
            allow: vec![AclRule {
                src: block(&["10.0.0.1", "10.0.0.2"], None),
                dst: block(&["10.0.1.1", "10.0.1.2"], Some(("80", "udp"))),
                vlan: None,
                rate: Some(9),
            }],
            drop: vec![
                AclRule {
                    src: None,
                    dst: None,
                    vlan: Some(vec![
                        VlanSpec::Simple(140),
                        VlanSpec::QinQ { outer: 130, inner: vec![100, 101] },
                    ]),
                    rate: None,
                },
                AclRule {
                    src: None,
                    dst: block(&["fe80::1"], Some(("any", "icmp"))),
                    vlan: None,
                    rate: None,
                },
            ],
        },
        logging: LoggingConfig { PacketDrop: true, PacketAllow: true, ..LoggingConfig::default() },
        ..Config::default()
    }
}

fn words(line: &str) -> Vec<String> {
    line.split_whitespace().map(|w| w.to_string()).collect()
}

/// Runs the tool and gives what it prints, with its exit code.
fn tool(m: &Machine, line: &str) -> (String, i32) {
    let (out, err, code) = finish(run(m, &mut Channel::new(m), &words(line)));
    (out + &err, code)
}

// ---- Adding, listing and deleting rules ----

#[test]
fn an_added_rule_is_listed_and_deleted() {
    let m = machine();
    assert_eq!(
        tool(&m, "acl add drop src 192.168.0.221:any dst 192.168.0.202:80 rate 5"),
        (
            "ACL rule added\nadded rule Drop: tcp 192.168.0.221:any -> 192.168.0.202:80 \
             (prefix_len=320 rate=5)\n"
                .to_string(),
            0
        )
    );
    let key = m.rows("l4_acl")[0].0.clone();
    assert_eq!(key.len(), 48);
    assert_eq!(&key[0..5], &[0x40, 1, 0, 0, 4]);
    let (out, code) = tool(&m, "acl list");
    assert_eq!(code, 0);
    let rows: Vec<&str> = out.lines().collect();
    assert_eq!(
        words(rows[0]),
        words("id plen fam src dst proto sport dport rate action")
    );
    assert_eq!(
        words(rows[1]),
        words("0 320 4 192.168.0.221 192.168.0.202 tcp any 80 5 Drop")
    );
    assert_eq!(tool(&m, "acl del --id 0"), ("Deleted ACL rule 0\ndeleted rule id=0\n".to_string(), 0));
    assert!(m.rows("l4_acl").is_empty());
    assert_eq!(tool(&m, "acl list").0, "(l4_acl map is empty)\n");
    assert_eq!(
        tool(&m, "acl del --id 0"),
        ("error: Failed to delete rule: Failed to delete ACL rule\n".to_string(), 1)
    );
}

#[test]
fn ipv6_rules_are_listed_in_full() {
    let m = machine();
    let (out, code) = tool(&m, "acl add allow src fe80::1:any dst fe80::2:any proto icmp");
    assert_eq!(code, 0);
    assert_eq!(
        out,
        "ACL rule added\nadded rule Allow: icmpv6 fe80:0:0:0:0:0:0:1:any -> fe80:0:0:0:0:0:0:2:any (prefix_len=304)\n"
    );
    let listed = acl_list(&m).unwrap();
    assert_eq!(listed[0].ip_proto, 58);
    assert_eq!(listed[0].src_addr[15], 1);
    let (out, _) = tool(&m, "acl list");
    assert!(out.contains("fe80:0:0:0:0:0:0:2"));
}

#[test]
fn a_key_is_printed_without_being_added() {
    let m = machine();
    let (out, code) =
        tool(&m, "acl add drop src 10.0.0.1:any dst 10.0.0.2:any --print-key");
    assert_eq!(code, 0);
    assert!(out.starts_with("key   : 30 01 00 00 04 "));
    assert!(out.contains("value : 01 00 00 00 "));
    assert!(out.ends_with(
        "(action=Drop, prefix_len=304, family=4, key_len=48, src_mapped=01)\n"
    ));
    assert!(m.rows("l4_acl").is_empty());
}

#[test]
fn the_tool_refuses_bad_rules() {
    let m = machine();
    let refused = |line: &str| {
        let (out, code) = tool(&m, line);
        assert_eq!(code, 1);
        out
    };
    assert_eq!(refused("acl add"), "error: 'allow' or 'drop' action required\n");
    assert_eq!(
        refused("acl add keep src a dst b"),
        "error: unknown action: 'keep' (expected allow|drop)\n"
    );
    assert_eq!(refused("acl add drop dst 1.2.3.4:any"), "error: src <ip>:<port|any> required\n");
    assert_eq!(refused("acl add drop src 1.2.3.4:any"), "error: dst <ip>:<port|any> required\n");
    assert_eq!(
        refused("acl add drop src 1.2.3.4:x dst 1.2.3.4:any"),
        "error: invalid port in src: invalid port: 'x' (expected number or 'any')\n"
    );
    assert_eq!(refused("acl"), "error: usage: ebpf-ctl acl <list|add|del|vlan> ...\n");
    assert_eq!(refused("acl x"), "error: unknown acl subcommand: 'x'\n");
    assert_eq!(refused("acl del --id x"), "error: invalid --id: 'x'\n");
    assert_eq!(refused("acl del"), "error: --id <n> required (see 'acl list')\n");
    assert!(m.rows("l4_acl").is_empty());
}

#[test]
fn vlan_rules() {
    let m = machine();
    assert_eq!(
        tool(&m, "acl vlan add 200 drop inner 100 rate 3"),
        (
            "Added VLAN rule: outer_vlan=200\n\
             added vlan rule (outer=200 inner=100 rate=3): drop\n"
                .to_string(),
            0
        )
    );
    assert!(tool(&m, "acl vlan add 300 allow").0.ends_with("added vlan rule (outer=300): allow\n"));
    assert_eq!(m.rows("vlan_acl")[0].0, vec![200, 0, 100, 0, 0, 0, 0, 0]);
    assert_eq!(m.rows("vlan_acl")[0].1, vec![1, 0, 0, 0, 3, 0, 0, 0]);
    let (out, _) = tool(&m, "acl vlan list");
    let rows: Vec<&str> = out.lines().collect();
    assert_eq!(words(rows[0]), words("id outer_vlan inner_vlan action rate"));
    assert_eq!(words(rows[1]), words("0 200 100 drop 3"));
    assert_eq!(words(rows[2]), words("1 300 - allow 0"));
    assert_eq!(tool(&m, "acl vlan del --id 1").0, "Deleted VLAN rule 1\ndeleted vlan rule id=1\n");
    assert_eq!(m.rows("vlan_acl").len(), 1);
    assert_eq!(tool(&m, "acl vlan add x drop").0, "error: invalid vlan-id: 'x'\n");
    assert_eq!(tool(&m, "acl vlan del --id 0").1, 0);
    assert_eq!(tool(&m, "acl vlan list").0, "(vlan_acl map is empty)\n");
    assert_eq!(
        tool(&m, "acl vlan"),
        ("error: usage: ebpf-ctl acl vlan <list|add|del> ...\n".to_string(), 1)
    );
}

#[test]
fn a_failing_kernel_is_reported() {
    let mut m = machine();
    m.failing = true;
    assert_eq!(
        tool(&m, "acl add drop src 10.0.0.1:any dst 10.0.0.2:any"),
        ("error: Failed to add rule: Failed to add ACL rule\n".to_string(), 1)
    );
    let e = map_update(&m, &mut Session::new(&m), "l4_acl", vec![1], vec![2]).unwrap_err();
    assert!(matches!(e, MapError::Libbpf(_)));
    assert_eq!(e.message().find("libbpf error: "), Some(0));
}

#[test]
fn missing_maps_are_not_found() {
    let m = machine();
    m.tables.borrow_mut().clear();
    assert!(matches!(open_map_by_name(&m, "l4_acl"), Err(MapError::NotFound(_))));
    assert!(matches!(map_lookup(&m, "l4_acl", vec![]), Err(MapError::NotFound(_))));
    // Connections and buckets are counted as none.
    assert_eq!(tool(&m, "conntrack show").0, "conntrack entries: 0\n");
    assert_eq!(tool(&m, "rate-limit show").0, "rate-limit entries: 0\n");
    assert_eq!(tool(&m, "acl list").1, 1);
}

// ---- Counters and events ----

#[test]
fn counters_are_summed_and_shown() {
    let mut m = machine();
    m.cells = vec![(0, vec![3, 4]), (26, vec![5]), (99, vec![1])];
    let (out, code) = tool(&m, "counters show");
    assert_eq!(code, 0);
    let rows: Vec<&str> = out.lines().collect();
    assert_eq!(words(rows[0]), words("counter value"));
    assert_eq!(words(rows[1]), words("rx_packets 7"));
    assert_eq!(words(rows[2]), words("rx_vlan 5"));
    assert_eq!(rows.len(), 3);
    m.failing = true;
    assert_eq!(
        tool(&m, "counters show"),
        ("error: Failed to get counters: libbpf error: cannot read\n".to_string(), 1)
    );
    // A map without a value for each CPU is read another way.
    m.percpu = false;
    let (out, _) = tool(&m, "counters show");
    assert_eq!(words(out.lines().nth(1).unwrap()), words("rx_packets 3"));
    m.cells.clear();
    assert_eq!(tool(&m, "counters show").0, "(no counters)\n");
    assert_eq!(tool(&m, "counters").0, "error: usage: ebpf-ctl counters show [--iface <dev>]\n");
    assert_eq!(sum_cells(&vec![vec![255; 8], vec![1, 0, 0, 0, 0, 0, 0, 0]]), None);
    assert_eq!(sum_cells(&vec![vec![9, 0, 0, 0], vec![1]]), Some(9));
    assert!(counter_id_from_u32(27).is_none());
}

#[test]
fn the_event_mask_is_changed_and_shown() {
    let m = machine();
    assert_eq!(
        tool(&m, "event-log list").0,
        "error: Failed to get event mask: not found: event_mask map entry missing\n"
    );
    map_update(&m, &mut Session::new(&m), "event_mask", vec![0; 4], vec![0; 8]).unwrap();
    assert_eq!(tool(&m, "event-log enable packet-drop").0, "enabled event-log: PacketDrop\n");
    assert_eq!(tool(&m, "event-log SlowPath").0, "enabled event-log: SlowPath\n");
    let (out, _) = tool(&m, "event-log list");
    assert!(out.contains("  [x] PacketDrop\n"));
    let before = m.rows("event_mask")[0].1.clone();
    tool(&m, "event-log disable slow-path");
    let (out, _) = tool(&m, "event-log list");
    assert!(out.contains("  [ ] SlowPath\n"));
    assert!(out.contains("  [x] PacketDrop\n"));
    tool(&m, "event-log enable slow-path");
    assert_eq!(m.rows("event_mask")[0].1, before);
    assert_eq!(tool(&m, "event-log nothing").1, 1);
    assert_eq!(
        tool(&m, "event-log enable").0,
        "error: usage: ebpf-ctl event-log enable <kind>\n"
    );
    assert_eq!(tool(&m, "event-log reset").0, "events reset\n");
}

#[test]
fn names_of_events() {
    assert_eq!(parse_event_kind("DROP"), Ok(EventKind::PacketDrop));
    assert_eq!(parse_event_kind("Vlan-Detected"), Ok(EventKind::VlanDetected));
    assert!(parse_event_kind("drops").unwrap_err().starts_with("unknown event kind: 'drops'\n"));
    for k in event_kinds() {
        assert_eq!(event_kind_from_u32(k.code()), Some(k));
        assert_eq!(parse_event_kind(event_name(k)), Ok(k));
        let m = change_mask(0, k, true);
        assert_eq!(m, 1u64 << k.code());
        assert_eq!(change_mask(m, k, false), 0);
    }
    assert_eq!(event_kind_from_u32(0), None);
    assert_eq!(event_kind_from_u32(9), None);
}

#[test]
fn an_event_is_read_and_described() {
    let mut d = vec![0u8; 72];
    d[0..8].copy_from_slice(&5u64.to_le_bytes());
    d[8..12].copy_from_slice(&2u32.to_le_bytes());
    d[12..16].copy_from_slice(&3u32.to_le_bytes());
    d[28..32].copy_from_slice(&[10, 0, 0, 1]);
    d[44..48].copy_from_slice(&[10, 0, 0, 2]);
    d[48..50].copy_from_slice(&1234u16.to_le_bytes());
    d[50..52].copy_from_slice(&80u16.to_le_bytes());
    d[52] = 4;
    d[53] = 6;
    d[56..64].copy_from_slice(&54u64.to_le_bytes());
    let e = parse_event(&d).unwrap();
    assert_eq!(e.kind, EventKind::RateLimited);
    assert_eq!((e.ts_ns, e.ifindex, e.aux0, e.aux1), (5, 3, 54, 0));
    let l = log_event(&e);
    assert_eq!(l.event_kind, "RateLimited");
    assert_eq!((l.src.as_str(), l.dst.as_str()), ("10.0.0.1", "10.0.0.2"));
    assert_eq!((l.src_port, l.dst_port, l.protocol.as_str()), (1234, 80, "TCP"));
    assert!(parse_event(&d[..71]).is_none());
    d[8] = 9;
    assert!(parse_event(&d).is_none());
}

#[test]
fn the_ring_buffer_is_found() {
    let mut m = machine();
    assert_eq!(choose_events_map(&m, None).unwrap().id, 20);
    m.progs = vec![(5, "xdp_dataplane", true, 2, 77, vec![10, 20])];
    assert_eq!(get_events_map_for_prog(&m, 5).unwrap().id, 20);
    // Any ring buffer of the name will do for another program.
    assert_eq!(get_events_map_for_prog(&m, 6).unwrap().id, 20);
    m.tables.borrow_mut().pop();
    assert_eq!(
        get_events_map_for_prog(&m, -1).unwrap_err(),
        "no 'events' ringbuf map found for program id -1"
    );
}

// ---- Configurations ----

#[test]
fn a_configuration_is_planned_in_order() {
    let plan = make_plan(&sample_config());
    assert_eq!(plan.len(), 8);
    match &plan[1] {
        Step::Rule { action, src, dst, proto, rate } => {
            assert_eq!(action, "allow");
            assert_eq!(src, "10.0.0.1:any");
            assert_eq!(dst, "10.0.1.2:80");
            assert_eq!(proto, "udp");
            assert_eq!(*rate, 9);
        }
        _ => panic!("a rule for addresses"),
    }
    match &plan[6] {
        Step::Vlan { outer, inner, action, rate } => {
            assert_eq!((*outer, *inner, action.as_str(), *rate), (130, 101, "drop", 0));
        }
        _ => panic!("a rule for tags"),
    }
}

#[test]
fn a_configuration_is_applied() {
    let m = machine();
    assert_eq!(tool(&m, "reload some.yml").0, "reloaded config: some.yml\n");
    // Four pairs of addresses; the last rule has an IPv4 source and an IPv6
    // destination.
    assert_eq!(m.rows("l4_acl").len(), 5);
    assert_eq!(m.rows("vlan_acl").len(), 3);
    let mask = m.rows("event_mask")[0].1.clone();
    assert_eq!(mask, event_mask_of(&sample_config().logging).to_le_bytes().to_vec());
    assert_eq!(event_mask_of(&sample_config().logging), (1 << 1) | (1 << 8));
    assert_eq!(tool(&m, "reload missing.yml").1, 1);
    assert_eq!(tool(&m, "reload").0, "reloaded default config\n");
}

#[test]
fn reloading_replaces_the_rules() {
    let m = machine();
    tool(&m, "acl add drop src 1.1.1.1:any dst 2.2.2.2:any");
    apply_config(&m, &mut Session::new(&m), &sample_config()).unwrap();
    assert_eq!(m.rows("l4_acl").len(), 5);
    apply_config(&m, &mut Session::new(&m), &Config::default()).unwrap();
    assert!(m.rows("l4_acl").is_empty());
    assert!(m.rows("vlan_acl").is_empty());
}

#[test]
fn configuration_files_are_checked() {
    let m = machine();
    let (out, code) = tool(&m, "test good.yml");
    assert_eq!(code, 0);
    assert!(out.starts_with("Validating config: good.yml\n--- config contents ---\n"));
    assert!(out.ends_with("--- end config ---\nConfig file is valid\n"));
    let (out, code) = tool(&m, "test bad.yml");
    assert_eq!(code, 1);
    assert!(out.contains("YAML parse error: "));
    assert_eq!(
        tool(&m, "test short.yml"),
        (
            "Validating config: short.yml\nMissing required section: logging\n".to_string(),
            1
        )
    );
    let (out, code) = tool(&m, "test list.yml");
    assert_eq!(code, 1);
    assert!(out.ends_with("error: acl.allow[0].src.addresses must be a sequence\n"));
    assert_eq!(
        tool(&m, "test"),
        ("error: Failed to read config 'config2.yml': no such file\n".to_string(), 1)
    );
}

// ---- Backends and services ----

fn backend(ip: &str) -> Command {
    Command::BackendAdd {
        iface: "end0".to_string(),
        ip: ip.to_string(),
        port: 8080,
        dev: "end0".to_string(),
        group: Some(1),
    }
}

fn success(r: Response) -> String {
    match r {
        Response::Success(s) => s,
        other => panic!("{:?}", other),
    }
}

fn lines(r: Response) -> Vec<String> {
    match r {
        Response::ListResult(v) => v,
        other => panic!("{:?}", other),
    }
}

#[test]
fn backends_are_added_listed_and_removed() {
    let m = machine();
    let iface = || "end0".to_string();
    assert_eq!(success(process_command(&m, &mut Session::new(&m), backend("10.0.0.9"), None).unwrap()), "Added backend id=0");
    assert_eq!(success(process_command(&m, &mut Session::new(&m), backend("10.0.0.8"), None).unwrap()), "Added backend id=1");
    let l = lines(process_command(&m, &mut Session::new(&m), Command::BackendList { iface: iface() }, None).unwrap());
    assert_eq!(words(&l[0]), words("0 10.0.0.9 8080 end0 1 ok"));
    assert_eq!(next_backend_id(&m).unwrap(), 2);
    let rm = Command::BackendRm { iface: iface(), id: 1 };
    assert_eq!(success(process_command(&m, &mut Session::new(&m), rm, None).unwrap()), "Deleted backend 1");
    let l = lines(process_command(&m, &mut Session::new(&m), Command::BackendList { iface: iface() }, None).unwrap());
    assert_eq!(l.len(), 1);
    let flush = Command::BackendFlush { iface: iface() };
    assert_eq!(success(process_command(&m, &mut Session::new(&m), flush, None).unwrap()), "Flushed 1 backends");
    let l = lines(process_command(&m, &mut Session::new(&m), Command::BackendList { iface: iface() }, None).unwrap());
    assert!(l.is_empty());
    match handle_command(&m, &mut Session::new(&m), Ok(backend("x")), None) {
        Response::Error(e) => assert!(e.starts_with("Invalid IP 'x': ")),
        other => panic!("{:?}", other),
    }
}

#[test]
fn services_are_added_listed_and_removed() {
    let m = machine();
    let add = |addr: &str, proto: &str| Command::ServiceAdd {
        iface: "end0".to_string(),
        addr: addr.to_string(),
        port: 443,
        proto: proto.to_string(),
        group: Some(3),
    };
    let list = || Command::ServiceList { iface: "end0".to_string() };
    assert_eq!(
        success(process_command(&m, &mut Session::new(&m), add("10.0.0.1", "tcp"), None).unwrap()),
        "Added service 10.0.0.1:443 proto=tcp"
    );
    process_command(&m, &mut Session::new(&m), add("10.0.0.1", "udp"), None).unwrap();
    let l = lines(process_command(&m, &mut Session::new(&m), list(), None).unwrap());
    assert_eq!(words(&l[0])[..4], words("10.0.0.1 443 tcp 3")[..]);
    assert_eq!(words(&l[1])[2], "udp");
    let rm = Command::ServiceRm {
        iface: "end0".to_string(),
        addr: "10.0.0.1".to_string(),
        port: 443,
        proto: "tcp".to_string(),
    };
    assert_eq!(
        success(process_command(&m, &mut Session::new(&m), rm, None).unwrap()),
        "Removed service 10.0.0.1:443 proto=tcp"
    );
    let flush = Command::ServiceFlush { iface: "end0".to_string() };
    assert_eq!(success(process_command(&m, &mut Session::new(&m), flush, None).unwrap()), "Flushed 1 services");
    assert!(m.rows("lb_services").is_empty());
}

#[test]
fn backend_records() {
    let spec = BackendSpec {
        ip: Ipv4::parse("10.0.0.9").unwrap(),
        port: 8080,
        dev: "end0".to_string(),
        group: 7,
    };
    let b: Backend = spec.build(2);
    assert!(b.is_configured());
    assert!(!b.is_unhealthy());
    let bytes = backend_to_bytes(&b);
    assert_eq!(bytes.len(), 48);
    assert_eq!(backend_from_bytes(&bytes), b);
    assert_eq!(backend_hex(&spec, 2), backend_to_hex(&machine(), &spec).unwrap());
    assert_eq!(backend_hex(&spec, 2).split(' ').count(), 48);
    assert_eq!(ifindex(&machine(), "end0"), Ok(2));
    assert!(ifindex(&machine(), "none").is_err());
    assert_eq!(ifindex_to_name(&machine(), 2), Some("end0".to_string()));
    assert_eq!(ifindex_to_name(&machine(), 3), None);
}

// ---- Attachments ----

#[test]
fn an_attached_program_is_found() {
    let mut m = machine();
    let (out, code) = tool(&m, "check-attach --iface end0");
    assert_eq!(code, 2);
    assert!(out.starts_with("WARNING: XDP not detected on interface 'end0'.\n"));
    m.links = vec![(1, 9, 3), (4, 5, 2)];
    assert_eq!(
        tool(&m, "check-attach --iface end0"),
        ("OK: XDP attached to 'end0' (prog id Some(5))\n".to_string(), 0)
    );
    m.links.clear();
    m.progs = vec![(6, "other", false, 2, 0, vec![]), (7, "xdp_main", true, 2, 0, vec![])];
    let a = check_xdp_attached(&m, "end0", None).unwrap();
    assert_eq!((a.attached, a.prog_id), (true, Some(7)));
    // Legacy attachments name no interface. The known program comes first,
    // then one of the namespace, then, for a known program that is gone, any.
    m.progs = vec![(6, "a", true, 0, 1, vec![]), (7, "b", true, 0, 77, vec![])];
    let known = |n: Option<u32>| check_xdp_attached(&m, "end0", n).unwrap();
    assert_eq!(known(Some(6)).prog_id, Some(6));
    assert_eq!(
        known(Some(6)).raw,
        "xdp program 'a' (id 6) attached to ifindex 2 (legacy bpf_set_link_xdp_fd: ifindex=0 in \
         prog_info, matched by --prog-id 6)"
    );
    assert_eq!(known(None).prog_id, Some(7));
    assert_eq!(known(Some(9)).prog_id, Some(6));
    assert!(known(Some(9)).raw.contains("known --prog-id was 9, but that program was not found"));
    assert!(check_xdp_attached(&m, "none", None).is_err());
    // Programs of other namespaces alone are no sign of an attachment.
    m.progs = vec![(6, "a", true, 0, 1, vec![])];
    let a = check_xdp_attached(&m, "end0", None).unwrap();
    assert_eq!((a.attached, a.prog_id), (false, None));
    assert_eq!(
        tool(&m, "check-attach").0,
        "error: --iface <dev> required (e.g., end0)\n"
    );
}

// ---- Reading texts ----

#[test]
fn endpoints_are_read_alike() {
    for s in ["10.0.0.1:80", "10.0.0.0/8:any", "fe80::1:443", "0.0.0.0/0:*"] {
        let (a, p) = tool_endpoint(s, "src", Proto::Tcp).unwrap();
        let (b, q) = parse_endpoint(s, Proto::Tcp).unwrap();
        assert_eq!(a.to_lpm(), b.to_lpm());
        match q {
            PortSpec::Any => assert_eq!(p, 0),
            PortSpec::Exact(n) => assert_eq!(p, n),
        }
    }
    let (a, p) = parse_endpoint("[fe80::1]:443", Proto::Tcp).unwrap();
    assert!(matches!(a, AclAddr::V6(_)));
    assert_eq!(p, PortSpec::Exact(443));
    assert!(matches!(parse_endpoint("[fe80::1", Proto::Tcp), Err(MapError::Json(_))));
    assert!(parse_endpoint("10.0.0.1", Proto::Tcp).is_err());
    assert_eq!(parse_endpoint("10.0.0.1", Proto::Icmp).unwrap().1, PortSpec::Any);
    assert_eq!(tool_endpoint("any", "src", Proto::Tcp).unwrap().1, 0);
    let (a, p) = tool_endpoint("[::1]:80", "dst", Proto::Tcp).unwrap();
    assert_eq!((a.to_lpm(), p), ([0, 0, 0, 0, 0, 0, 0, 0, 0, 0, 0, 0, 0, 0, 0, 1], 80));
    assert!(tool_endpoint("[::1", "dst", Proto::Tcp).is_err());
}

#[test]
fn rules_are_read() {
    let r = parse_rule("drop", "fe80::1", "fe80::2", Some("icmp"), None).unwrap();
    assert_eq!(r.proto, Proto::Icmp);
    assert_eq!(r.rate, 0);
    let r = parse_rule("allow", "1.2.3.4:5", "1.2.3.5:6", None, Some(7)).unwrap();
    assert_eq!((r.proto, r.rate), (Proto::Tcp, 7));
    assert_eq!((r.sport, r.dport), (PortSpec::Exact(5), PortSpec::Exact(6)));
    assert!(parse_rule("drop", "x:any", "1.2.3.4:any", None, None).is_err());
    assert!(parse_action("maybe").is_err());
    assert_eq!(parse_action("drop").unwrap().code(), 1);
}

#[test]
fn listed_lines_are_read_back() {
    let line = "  7 304   4    10.0.0.1                           10.0.0.2                           udp  53     any    -     Allow";
    let v = parse_acl_lines(&vec![line.to_string(), "too short".to_string()]);
    assert_eq!(v.len(), 1);
    assert_eq!((v[0].id, v[0].prefix_len, v[0].family, v[0].ip_proto), (7, 304, 4, 17));
    assert_eq!((v[0].src_port, v[0].dst_port, v[0].rule.rate), (53, 0, 0));
    assert_eq!(v[0].action, "Allow");
    assert_eq!(v[0].rule.src.to_lpm()[15], 1);
    let addr = [0x20, 1, 0xd, 0xb8, 0, 0, 0, 0, 0, 0, 0, 0, 0, 0, 0xab, 1];
    assert_eq!(format_ip(&addr, 6), "2001:db8:0:0:0:0:0:ab01");
    assert_eq!(parse_ip(&format_ip(&addr, 6), 6), addr);
    assert_eq!(parse_ip("::ffff:1.2.3.4", 4)[10..], [0xff, 0xff, 1, 2, 3, 4]);
}

#[test]
fn options_of_the_tool() {
    let args = words("a -i eth1 b rate 5");
    assert_eq!(get_opt(&vec!["--iface", "-i"], &args), Some("eth1".to_string()));
    assert_eq!(get_opt(&vec!["--id"], &args), None);
    assert_eq!(strip_opt(&vec!["-i", "rate"], &args), words("a b"));
    assert_eq!(get_opt(&vec!["5"], &args), None);
}

#[test]
fn use_of_the_tool() {
    let m = machine();
    let (out, code) = tool(&m, "");
    assert_eq!(code, 0);
    assert!(out.starts_with("Usage:\n   ebpf-ctl check-attach --iface <dev>\n"));
    assert_eq!(tool(&m, "frobnicate").1, 1);
}

#[test]
fn arguments_of_the_daemon() {
    let run = |line: &str| match parse_args(&words(line)) {
        Ok(Invocation::Run { prog_id, config_path }) => (prog_id, config_path),
        other => panic!("{:?}", other),
    };
    assert_eq!(run(""), (None, "config2.yml".to_string()));
    assert_eq!(run("--prog-id 212"), (Some(212), "config2.yml".to_string()));
    assert_eq!(run("--prog-id -2147483648").0, Some(i32::MIN));
    assert_eq!(run("--prog-id 2147483648").0, None);
    assert_eq!(run("--prog-id -+1").0, None);
    assert_eq!(run("--prog-id").0, None);
    assert_eq!(run("--config a --config b").1, "b");
    assert_eq!(run("--config --config").1, "--config");
    assert!(matches!(parse_args(&words("--config x -h")), Ok(Invocation::Help)));
    assert!(matches!(parse_args(&words("--help")), Ok(Invocation::Help)));
    assert_eq!(
        parse_args(&words("--config")).unwrap_err(),
        "--config requires a path argument"
    );
}

#[test]
fn a_command_that_cannot_be_read_is_answered() {
    let m = machine();
    match handle_command(&m, &mut Session::new(&m), Err("expected value".to_string()), None) {
        Response::Error(e) => assert_eq!(e, "Failed to parse command: expected value"),
        other => panic!("{:?}", other),
    }
}

// ---- What is written, and what is not ----

#[test]
fn refused_commands_write_nothing() {
    let m = machine();
    let bad = |action: &str, src: &str| Command::AclAdd {
        iface: "end0".to_string(),
        action: action.to_string(),
        src: src.to_string(),
        dst: "10.0.0.2:any".to_string(),
        proto: None,
        rate: None,
    };
    for command in [
        bad("maybe", "10.0.0.1:any"),
        bad("drop", "10.0.0:any"),
        Command::AclVlanAdd {
            iface: "end0".to_string(),
            vlan_id: 4,
            action: "maybe".to_string(),
            inner_vlan: None,
            rate: None,
        },
        Command::AclDel { iface: "end0".to_string(), id: 0 },
        Command::AclVlanDel { iface: "end0".to_string(), id: 0 },
        backend("x"),
        Command::BackendAdd {
            iface: "end0".to_string(),
            ip: "10.0.0.1".to_string(),
            port: 1,
            dev: "none".to_string(),
            group: None,
        },
        Command::BackendRm { iface: "end0".to_string(), id: 3 },
        Command::ConfigReload { path: Some("missing.yml".to_string()) },
    ] {
        assert!(process_command(&m, &mut Session::new(&m), command, None).is_err());
        assert!(m.writes().is_empty());
    }
    tool(&m, "acl list");
    tool(&m, "counters show");
    tool(&m, "check-attach --iface end0");
    assert!(m.writes().is_empty());
}

#[test]
fn a_rule_is_written_once_and_replaced() {
    let m = machine();
    tool(&m, "acl add drop src 10.0.0.1:any dst 10.0.0.2:80");
    tool(&m, "acl add drop src 10.0.0.3:any dst 10.0.0.2:80");
    assert_eq!(m.writes(), vec!["update l4_acl", "update l4_acl"]);
    tool(&m, "acl add allow src 10.0.0.1:any dst 10.0.0.2:80");
    assert_eq!(m.rows("l4_acl").len(), 2);
    m.writes();
    tool(&m, "acl del --id 0");
    assert_eq!(m.writes(), vec!["delete l4_acl"]);
    assert_eq!(m.rows("l4_acl").len(), 1);
}

#[test]
fn backends_are_written_in_order() {
    let m = machine();
    process_command(&m, &mut Session::new(&m), backend("10.0.0.9"), None).unwrap();
    assert_eq!(m.writes(), vec!["update lb_backends", "update lb_devmap", "update lb_meta"]);
    process_command(&m, &mut Session::new(&m), backend("10.0.0.8"), None).unwrap();
    let meta = m.rows("lb_meta");
    let first = m.rows("lb_backends")[0].clone();
    m.writes();
    let rm = Command::BackendRm { iface: "end0".to_string(), id: 1 };
    process_command(&m, &mut Session::new(&m), rm, None).unwrap();
    assert_eq!(m.writes(), vec!["update lb_backends", "delete lb_devmap"]);
    assert!(m.rows("lb_backends").contains(&first));
    let flush = Command::BackendFlush { iface: "end0".to_string() };
    process_command(&m, &mut Session::new(&m), flush, None).unwrap();
    assert_eq!(m.writes(), vec!["update lb_backends", "delete lb_devmap"]);
    assert_eq!(m.rows("lb_meta"), meta);
}

fn service(addr: &str) -> Command {
    Command::ServiceAdd {
        iface: "end0".to_string(),
        addr: addr.to_string(),
        port: 443,
        proto: "tcp".to_string(),
        group: Some(3),
    }
}

#[test]
fn services_behind_a_failed_deletion_stay() {
    let mut m = machine();
    for addr in ["10.0.0.1", "10.0.0.2", "10.0.0.3"] {
        process_command(&m, &mut Session::new(&m), service(addr), None).unwrap();
    }
    let rows = m.rows("lb_services");
    m.stuck = Some(rows[1].0.clone());
    let flush = || Command::ServiceFlush { iface: "end0".to_string() };
    assert!(process_command(&m, &mut Session::new(&m), flush(), None).is_err());
    assert_eq!(m.rows("lb_services"), rows[1..].to_vec());
    m.stuck = None;
    process_command(&m, &mut Session::new(&m), flush(), None).unwrap();
    assert!(m.rows("lb_services").is_empty());
}

#[test]
fn deleting_a_service_takes_the_key_that_adding_wrote() {
    let m = machine();
    process_command(&m, &mut Session::new(&m), service("10.0.0.1"), None).unwrap();
    let rows = m.rows("lb_services");
    process_command(&m, &mut Session::new(&m), service("10.0.0.2"), None).unwrap();
    let rm = Command::ServiceRm {
        iface: "end0".to_string(),
        addr: "10.0.0.2".to_string(),
        port: 443,
        proto: "tcp".to_string(),
    };
    process_command(&m, &mut Session::new(&m), rm, None).unwrap();
    assert_eq!(m.rows("lb_services"), rows);
}

#[test]
fn the_flags_of_a_service_are_listed() {
    let m = machine();
    process_command(&m, &mut Session::new(&m), service("10.0.0.1"), None).unwrap();
    let (key, mut value) = m.rows("lb_services")[0].clone();
    value[5] = 9;
    map_update(&m, &mut Session::new(&m), "lb_services", key, value).unwrap();
    assert_eq!(service_list(&m).unwrap()[0].flags, 9);
}

#[test]
fn reloading_clears_first_and_stores_the_mask_last() {
    let m = machine();
    tool(&m, "acl add drop src 1.1.1.1:any dst 2.2.2.2:any");
    tool(&m, "acl vlan add 7 drop");
    m.writes();
    tool(&m, "reload some.yml");
    let w = m.writes();
    assert_eq!(w[..2], ["delete l4_acl".to_string(), "delete vlan_acl".to_string()]);
    assert_eq!(w.len(), 2 + 8 + 1);
    assert!(w[2..10].iter().all(|x| x.starts_with("update ")));
    assert_eq!(w[10], "update event_mask");
}
