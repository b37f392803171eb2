use std::cell::RefCell;

use pulsar::acl_key::Ipv4;
use pulsar::ctl::attach::{check_xdp_attached, parse_prog_id};
use pulsar::ctl::backend::{
    backend_add, backend_delete, backend_flush, backend_list, ifindex, link_args, name_in_links,
    next_backend_id,
};
use pulsar::ctl::bpftool::{
    addr_from_json, bpftool_dump, conntrack_count, counters, find_map_id_by_prog, find_xdp_prog_id,
    get_map_ids_for_prog, get_map_info, map_delete, map_ids_in, map_update, prog_id_in_net,
    map_update_id, bpftool_run_id, rate_limit_count, read_dump, to_hex_bytes, MapError, Query,
    ToolOutput, Tools,
};
use pulsar::ctl::edits::{Editor, Edits};
use pulsar::json::{parse_json_array, Json};
use pulsar::maps::CounterId;
use pulsar::records::BackendSpec;

/// Programs that answer from a table and note how they were called.
struct Programs {
    backends: &'static str,
    calls: RefCell<Vec<String>>,
    edits: RefCell<Vec<String>>,
    attached: bool,
    refuse: &'static str,
}

fn programs() -> Programs {
    Programs {
        backends: "[]",
        calls: RefCell::new(Vec::new()),
        edits: RefCell::new(Vec::new()),
        attached: true,
        refuse: "nothing",
    }
}

fn printed(text: &str) -> Result<ToolOutput, String> {
    Ok(ToolOutput {
        success: true,
        code: Some(0),
        stdout: text.to_string(),
        stderr: String::new(),
    })
}

impl Programs {
    fn bpftool(&self, args: Vec<String>) -> Result<ToolOutput, String> {
        let line = args.join(" ");
        self.calls.borrow_mut().push(line.clone());
        if line.starts_with(self.refuse) {
            return Ok(ToolOutput {
                success: false,
                code: Some(255),
                stdout: "out".to_string(),
                stderr: "err".to_string(),
            });
        }
        match line.as_str() {
            "net show dev end0" => {
                if self.attached {
                    printed("xdp:\nend0(2) generic id 534\n\ntc:\n")
                } else {
                    printed("\n")
                }
            }
            "prog show id 534" => printed("534: xdp  name main\n\tmap_ids 7,8,9,10,11,12\n"),
            "map show id 7" => printed("7: percpu_array  name counters  flags 0x0\n"),
            "map show id 8" => printed("8: array  name lb_backends  flags 0x0\n"),
            "map show id 9" => printed("9: devmap  name lb_devmap\n"),
            "map show id 10" => printed("10: array  name lb_meta\n"),
            "map show id 11" => printed("11: lru_percpu_hash  name conntrack\n"),
            "map show id 12" => printed("12: percpu_hash  name rate_limit\n"),
            "map dump id 7" => printed(
                "[{\"key\":{\"index\":0},\"value\":{\"value\":5}},\
                  {\"key\":{\"index\":3},\"value\":{}},\
                  {\"key\":{\"index\":77},\"value\":{\"value\":1}}]",
            ),
            "map dump id 8" => printed(self.backends),
            "map dump id 11" => printed("[1, 2, 3]"),
            "map dump id 12" => printed("not json"),
            _ => printed(""),
        }
    }

}

impl Tools for Programs {
    fn show(&self, query: Query) -> Result<ToolOutput, String> {
        self.bpftool(query.args())
    }

    fn links(&self) -> Result<ToolOutput, String> {
        printed("1: lo: <LOOPBACK>\n2: end0@if5: <UP>\n")
    }

    fn if_nametoindex(&self, name: String) -> u32 {
        if name == "end0" {
            2
        } else {
            0
        }
    }
}

impl Editor for Programs {
    fn edit(&self, args: Vec<String>) -> Result<ToolOutput, String> {
        self.edits.borrow_mut().push(args.join(" "));
        self.bpftool(args)
    }
}

const ONE: &str = "[{\"key\":4,\"value\":{\"addr\":[0,0,0,0,0,0,0,0,0,0,255,255,10,0,0,9],\
    \"port\":8080,\"family\":4,\"proto\":6,\"ifindex\":2,\"weight\":1,\"backend_group\":7,\
    \"flags\":0,\"mac\":[1,2,3,4,5,6]}},{\"key\":5,\"value\":{\"ifindex\":0}}]";

#[test]
fn program_numbers_are_found() {
    assert_eq!(prog_id_in_net("xdp: prog id 123"), Some(123));
    assert_eq!(prog_id_in_net("  xdpdrv: prog/xdp id 9 tag"), Some(9));
    assert_eq!(prog_id_in_net("xdp:\n end0(2) generic id 534\n"), Some(534));
    assert_eq!(prog_id_in_net("xdp:\n end0(2) prog id 6"), Some(6));
    assert_eq!(prog_id_in_net("tc: prog id 3"), None);
    assert_eq!(parse_prog_id("xdp: prog/xdp id 137"), Some(137));
    assert_eq!(parse_prog_id("xdp"), None);
    assert_eq!(find_xdp_prog_id(&programs(), "end0").unwrap(), Some(534));
}

#[test]
fn maps_of_a_program_are_found() {
    let t = programs();
    assert_eq!(map_ids_in("map_ids: 7,8 9\nother 10"), vec![7, 8, 9]);
    assert_eq!(get_map_ids_for_prog(&t, 534).unwrap(), vec![7, 8, 9, 10, 11, 12]);
    let (name, kind) = get_map_info(&t, 9).unwrap();
    assert_eq!((name.as_str(), kind.as_str()), ("lb_devmap", "devmap"));
    assert_eq!(find_map_id_by_prog(&t, "end0", "lb_meta").unwrap(), 10);
    match find_map_id_by_prog(&t, "end0", "l4_acl") {
        Err(MapError::Bpftool { code, stderr }) => {
            assert_eq!(code, None);
            assert_eq!(stderr, "Map 'l4_acl' not found in program 534");
        }
        other => panic!("{:?}", other),
    }
    let off = Programs { attached: false, ..programs() };
    match find_map_id_by_prog(&off, "end0", "l4_acl") {
        Err(MapError::Bpftool { stderr, .. }) => {
            assert_eq!(stderr, "No XDP program attached to end0");
        }
        other => panic!("{:?}", other),
    }
}

#[test]
fn counters_and_counts() {
    let t = programs();
    assert_eq!(
        counters(&t, "end0").unwrap(),
        vec![(CounterId::RxPackets, 5), (CounterId::Dropped, 0)]
    );
    assert_eq!(conntrack_count(&t, "end0").unwrap(), 3);
    match rate_limit_count(&t, "end0") {
        Err(MapError::Json(m)) => assert!(m.ends_with(": not json")),
        other => panic!("{:?}", other),
    }
}

#[test]
fn entries_are_written_in_hex() {
    let t = programs();
    let mut w = Edits::new(&t);
    map_update(&t, &mut w, "end0", "lb_meta", &vec![0, 0, 0, 0], &vec![1, 0xff]).unwrap();
    assert_eq!(
        t.calls.borrow().last().unwrap(),
        "map update id 10 key hex 00 00 00 00 value hex 01 ff"
    );
    map_delete(&t, &mut w, "end0", "lb_devmap", &vec![4, 0]).unwrap();
    assert_eq!(t.calls.borrow().last().unwrap(), "map delete id 9 key hex 04 00");
    assert_eq!(t.edits.borrow().len(), 2);
    assert!(map_update(&t, &mut w, "end0", "l4_acl", &vec![0], &vec![1]).is_err());
    assert_eq!(t.edits.borrow().len(), 2);
    map_update_id(&mut w, 7, &vec![1], &vec![2]).unwrap();
    assert_eq!(*t.edits.borrow().last().unwrap(), "map update id 7 key hex 01 value hex 02");
    let words = vec!["freeze".to_string(), "now".to_string()];
    bpftool_run_id(&mut w, 7, &words).unwrap();
    assert_eq!(*t.edits.borrow().last().unwrap(), "map freeze id 7 now");
    assert_eq!(t.edits.borrow().len(), 4);
    assert_eq!(to_hex_bytes(&vec![0, 171]), vec!["00", "ab"]);
    assert_eq!(bpftool_dump(&t, "end0", "conntrack").unwrap(), "[1, 2, 3]");
}

#[test]
fn failures_are_handed_on() {
    let t = Programs { refuse: "map dump", ..programs() };
    match conntrack_count(&t, "end0") {
        Err(MapError::Bpftool { code, stderr }) => {
            assert_eq!(code, Some(255));
            assert_eq!(stderr, "err\nout");
        }
        other => panic!("{:?}", other),
    }
    let t = Programs { refuse: "prog show", ..programs() };
    match get_map_ids_for_prog(&t, 1) {
        Err(MapError::Bpftool { stderr, .. }) => assert_eq!(stderr, "outerr"),
        other => panic!("{:?}", other),
    }
}

#[test]
fn backends_are_read_and_numbered() {
    let t = Programs { backends: ONE, ..programs() };
    let l = backend_list(&t, "end0").unwrap();
    assert_eq!(l.len(), 1);
    assert_eq!(l[0].id, 4);
    assert_eq!(l[0].backend.port, 8080);
    assert_eq!(l[0].backend.mac, [1, 2, 3, 4, 5, 6]);
    assert_eq!(l[0].dev_name, Some("end0".to_string()));
    assert_eq!(next_backend_id(&t, "end0").unwrap(), 5);
    assert_eq!(next_backend_id(&programs(), "end0").unwrap(), 0);
}

#[test]
fn a_backend_is_added_and_taken_away() {
    let t = Programs { backends: ONE, ..programs() };
    let spec = BackendSpec {
        ip: Ipv4::parse("10.0.0.8").unwrap(),
        port: 80,
        dev: "end0".to_string(),
        group: 1,
    };
    let mut w = Edits::new(&t);
    assert_eq!(backend_add(&t, &mut w, "end0", &spec).unwrap(), 5);
    assert_eq!(t.edits.borrow().len(), 3);
    assert_eq!(
        t.calls.borrow().last().unwrap(),
        "map update id 10 key hex 00 00 00 00 value hex 06 00 00 00 00 00 00 00"
    );
    assert!(t
        .calls
        .borrow()
        .iter()
        .any(|c| c.starts_with("map update id 8 key hex 05 00 00 00 value hex 00 00")));
    assert_eq!(
        t.edits.borrow()[1],
        "map update id 9 key hex 05 00 00 00 value hex 02 00 00 00 00 00 00 00 id 0"
    );
    backend_delete(&t, &mut w, "end0", 4).unwrap();
    assert_eq!(t.edits.borrow().len(), 5);
    assert_eq!(t.calls.borrow().last().unwrap(), "map delete id 9 key hex 04 00 00 00");
    match backend_delete(&t, &mut w, "end0", 3) {
        Err(MapError::Json(m)) => assert_eq!(m, "backend with id=3 not found"),
        other => panic!("{:?}", other),
    }
    assert_eq!(t.edits.borrow().len(), 5);
    assert_eq!(backend_flush(&t, &mut w, "end0").unwrap(), 1);
    assert_eq!(t.edits.borrow().len(), 7);
    assert!(t.edits.borrow()[5].starts_with("map update id 8 key hex 04 00 00 00 value hex 00 "));
    assert_eq!(t.edits.borrow()[6], "map delete id 9 key hex 04 00 00 00");
    let nowhere = BackendSpec { dev: "none".to_string(), ..spec };
    match backend_add(&t, &mut w, "end0", &nowhere) {
        Err(MapError::Json(m)) => {
            assert_eq!(m, "interface 'none' not found (if_nametoindex returned 0)");
        }
        other => panic!("{:?}", other),
    }
    assert_eq!(t.edits.borrow().len(), 7);
}

#[test]
fn interfaces() {
    let text = "1: lo: <LOOPBACK>\n2: end0@if5: <UP>\n";
    assert_eq!(name_in_links(text, 2), Some("end0".to_string()));
    assert_eq!(name_in_links(text, 3), None);
    assert_eq!(link_args(), vec!["-o", "link", "show"]);
    // A line without a number ends the search.
    assert_eq!(name_in_links("x\n2: end0: <UP>", 2), None);
    assert_eq!(ifindex(&programs(), "end0"), Ok(2));
}

#[test]
fn attachment_by_output() {
    let a = check_xdp_attached(&programs(), "end0").unwrap();
    assert!(a.attached);
    assert_eq!(a.prog_id, Some(534));
    let off = Programs { attached: false, ..programs() };
    let a = check_xdp_attached(&off, "end0").unwrap();
    assert!(!a.attached);
    assert_eq!(a.prog_id, None);
    assert_eq!(a.raw, "\n");
}

#[test]
fn documents() {
    let v = parse_json_array("[{\"a\": [1, 300, -1]}, \"x\", null]").unwrap();
    assert_eq!(v.len(), 3);
    assert!(v[0].get("b").is_none());
    let a = v[0].get("a").unwrap();
    assert_eq!(addr_from_json(a)[..3], [1, 44, 0]);
    assert_eq!(v[1].as_number(), 0);
    assert!(matches!(v[1], Json::Str(_)));
    assert!(parse_json_array("{}").is_err());
    assert!(read_dump("[1").is_err());
}

#[test]
fn errors_as_texts() {
    assert_eq!(MapError::Io("x".to_string()).message(), "bpftool execution error: x");
    let failed = |code: Option<i32>| MapError::Bpftool { code, stderr: "y".to_string() }.message();
    assert_eq!(failed(Some(-1)), "bpftool exited with error Some(-1): y");
    assert_eq!(failed(None), "bpftool exited with error None: y");
    assert_eq!(MapError::Json("z".to_string()).message(), "bpftool output parse error: z");
}
