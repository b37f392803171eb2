//! The entry of the command-line tool.
use vstd::prelude::*;
use vstd::string::StringExecFns;

use crate::ctl::check::{check_config, text_finding, Finding, FindingView};
use crate::ctl::cli::{
    acl_cmd, acl_cmd_ran, check_attach_cmd, check_attach_ran, fail_with, fails, print, prints, tail,
    Outcome, OutcomeView, Shell,
};
use crate::ctl::client::{
    answer, asked, config_reload, success_text, Channel, Daemon, Exchange,
};
use crate::ctl::monitor::{
    conntrack_cmd, conntrack_ran, counters_cmd, counters_ran, event_log_cmd, event_log_ran,
    rate_limit_cmd, rate_limit_ran,
};
use crate::daemon::api::config_path;
use crate::daemon::maps::opt_str;
use crate::protocol::CommandView;
use crate::text::{same, texts, told};
use crate::yaml::yaml_document;

verus! {

/// How the tool is used.
pub const USAGE: &'static str = "Usage:\n   ebpf-ctl check-attach --iface <dev>\n   ebpf-ctl acl list\n  ebpf-ctl acl add <allow|drop> src <ip>:<port|any> dst <ip>:<port|any> [proto tcp|udp|icmp] [rate <pps>] [--print-key]\n  ebpf-ctl acl del --id <n>\n  ebpf-ctl acl vlan list\n  ebpf-ctl acl vlan add <vlan-id> <allow|drop> [inner <inner-vlan-id>] [rate <pps>]\n  ebpf-ctl acl vlan del --id <n>\n  ebpf-ctl counters show\n  ebpf-ctl conntrack show\n  ebpf-ctl rate-limit show\n  ebpf-ctl event-log list\n  ebpf-ctl event-log enable <kind>\n  ebpf-ctl event-log disable <kind>\n  ebpf-ctl event-log reset\n  ebpf-ctl event-log <kind>   # shorthand for enable\n  ebpf-ctl test [<config>]   # validate configuration file (default: config2.yml)\n  ebpf-ctl reload [<config>] # reload configuration in daemon (default: config2.yml)\n";

// ---- test ----

/// The first argument, where there is one.
pub open spec fn first_arg(args: Seq<Seq<char>>) -> Option<Seq<char>> {
    if args.len() > 0 {
        Some(args[0])
    } else {
        None
    }
}

/// What `test` prints for a file and what the check found in it.
pub open spec fn test_outcome(path: Seq<char>, contents: Seq<char>, f: FindingView) -> OutcomeView {
    let head = "Validating config: "@ + path + "\n"@;
    match f {
        FindingView::Missing(line) => OutcomeView {
            out: head + line + "\n"@,
            err: Seq::empty(),
            result: Ok(1),
        },
        FindingView::Wrong(m) => OutcomeView { out: head, err: Seq::empty(), result: Err(m) },
        FindingView::Valid => prints(
            head + "--- config contents ---\n"@ + contents
                + "\n--- end config ---\nConfig file is valid\n"@,
        ),
    }
}

/// What `test` prints for a file and what the check found in it.
pub fn show_finding(path: &str, contents: &str, f: Finding) -> (r: Outcome)
    ensures
        r@ == test_outcome(path@, contents@, f@),
{
    let mut out = "Validating config: ".to_string();
    out.append(path);
    out.append("\n");
    match f {
        Finding::Missing(line) => {
            out.append(line.as_str());
            out.append("\n");
            let r = Outcome { out, err: String::new(), result: Ok(1) };
            assert(r.err@ =~= Seq::empty());
            r
        },
        Finding::Wrong(m) => {
            let r = Outcome { out, err: String::new(), result: Err(m) };
            assert(r.err@ =~= Seq::empty());
            r
        },
        Finding::Valid => {
            out.append("--- config contents ---\n");
            out.append(contents);
            out.append("\n--- end config ---\nConfig file is valid\n");
            print(out)
        },
    }
}

/// `test` with its arguments: the file was read, and its text checked.
pub open spec fn test_ran<S: Shell>(s: &S, args: Seq<Seq<char>>, r: OutcomeView) -> bool {
    let path = config_path(first_arg(args));
    exists|p: String, reply: Result<String, String>|
        {
            &&& p@ == path
            &&& #[trigger] call_ensures(S::read_file, (s, p), reply)
            &&& r == match reply {
                Err(e) => fails("Failed to read config '"@ + path + "': "@ + e@),
                Ok(c) => test_outcome(path, c@, text_finding(yaml_document(c@))),
            }
        }
}

pub fn test_cmd<S: Shell>(s: &S, args: &Vec<String>) -> (r: Outcome)
    ensures
        test_ran(s, texts(args@), r@),
{
    let path = if args.len() == 0 {
        "config2.yml".to_string()
    } else {
        assert(texts(args@)[0] == args@[0]@);
        args[0].as_str().to_owned()
    };
    let p = path.as_str().to_owned();
    let reply = s.read_file(p);
    assert(call_ensures(S::read_file, (s, p), reply));
    match reply {
        Err(e) => {
            let mut m = "Failed to read config '".to_string();
            m.append(path.as_str());
            m.append("': ");
            fail_with(m.as_str(), e.as_str())
        },
        Ok(contents) => {
            let f = check_config(contents.as_str());
            show_finding(path.as_str(), contents.as_str(), f)
        },
    }
}

// ---- reload ----

/// The outcome of `reload` for an answer.
pub open spec fn reload_outcome(
    path: Option<Seq<char>>,
    reply: Result<Seq<char>, Seq<char>>,
) -> OutcomeView {
    match reply {
        Err(e) => fails("Failed to reload config: "@ + e),
        Ok(_) => match path {
            Some(p) => prints("reloaded config: "@ + p + "\n"@),
            None => prints("reloaded default config\n"@),
        },
    }
}

/// The outcome of `reload` for an answer.
pub fn show_reloaded(path: Option<&str>, reply: Result<String, String>) -> (r: Outcome)
    ensures
        r@ == reload_outcome(opt_str(path), told(reply)),
{
    match reply {
        Err(e) => fail_with("Failed to reload config: ", e.as_str()),
        Ok(_) => match path {
            Some(p) => {
                let mut m = "reloaded config: ".to_string();
                m.append(p);
                m.append("\n");
                print(m)
            },
            None => print("reloaded default config\n".to_string()),
        },
    }
}

pub open spec fn reload_ran(
    before: Seq<Exchange>,
    args: Seq<Seq<char>>,
    after: Seq<Exchange>,
    r: OutcomeView,
) -> bool {
    &&& asked(before, CommandView::ConfigReload { path: first_arg(args) }, after)
    &&& r == reload_outcome(first_arg(args), success_text(answer(after)))
}

pub fn reload_cmd<D: Daemon>(d: &mut Channel<D>, args: &Vec<String>) -> (r: Outcome)
    ensures
        final(d).daemon() == old(d).daemon(),
        reload_ran(old(d).log(), texts(args@), final(d).log(), r@),
{
    let path = if args.len() == 0 {
        None
    } else {
        assert(texts(args@)[0] == args@[0]@);
        Some(args[0].as_str())
    };
    assert(opt_str(path) == first_arg(texts(args@)));
    let reply = config_reload(d, path);
    show_reloaded(path, reply)
}

// ---- The tool ----

/// What the tool prints about how it is used.
pub open spec fn usage_text() -> Seq<char> {
    USAGE@ + "\n"@
}

fn usage() -> (r: String)
    ensures
        r@ == usage_text(),
{
    let mut s = USAGE.to_owned();
    s.append("\n");
    s
}

/// The tool with its arguments.
pub open spec fn tool_ran<S: Shell>(
    s: &S,
    before: Seq<Exchange>,
    args: Seq<Seq<char>>,
    after: Seq<Exchange>,
    r: OutcomeView,
) -> bool {
    if args.len() == 0 {
        after == before && r == prints(usage_text())
    } else if args[0] == "check-attach"@ {
        check_attach_ran(before, args.skip(1), after, r)
    } else if args[0] == "acl"@ {
        acl_cmd_ran(before, args.skip(1), after, r)
    } else if args[0] == "counters"@ {
        counters_ran(before, args.skip(1), after, r)
    } else if args[0] == "conntrack"@ {
        conntrack_ran(before, args.skip(1), after, r)
    } else if args[0] == "rate-limit"@ {
        rate_limit_ran(before, args.skip(1), after, r)
    } else if args[0] == "event-log"@ {
        event_log_ran(before, args.skip(1), after, r)
    } else if args[0] == "test"@ {
        after == before && test_ran(s, args.skip(1), r)
    } else if args[0] == "reload"@ {
        reload_ran(before, args.skip(1), after, r)
    } else {
        &&& after == before
        &&& r == (OutcomeView {
            out: usage_text(),
            err: "unknown command: '"@ + args[0] + "'\n"@,
            result: Ok(1),
        })
    }
}

/// Runs the tool.
pub fn run<S: Shell, D: Daemon>(s: &S, d: &mut Channel<D>, args: &Vec<String>) -> (r: Outcome)
    ensures
        final(d).daemon() == old(d).daemon(),
        tool_ran(s, old(d).log(), texts(args@), final(d).log(), r@),
{
    if args.len() == 0 {
        return print(usage());
    }
    assert(texts(args@)[0] == args@[0]@);
    let rest = tail(args);
    let name = args[0].as_str();
    if same(name, "check-attach") {
        check_attach_cmd(d, &rest)
    } else if same(name, "acl") {
        acl_cmd(d, &rest)
    } else if same(name, "counters") {
        counters_cmd(d, &rest)
    } else if same(name, "conntrack") {
        conntrack_cmd(d, &rest)
    } else if same(name, "rate-limit") {
        rate_limit_cmd(d, &rest)
    } else if same(name, "event-log") {
        event_log_cmd(d, &rest)
    } else if same(name, "test") {
        test_cmd(s, &rest)
    } else if same(name, "reload") {
        reload_cmd(d, &rest)
    } else {
        let mut err = "unknown command: '".to_string();
        err.append(name);
        err.append("'\n");
        Outcome { out: usage(), err, result: Ok(1) }
    }
}

} // verus!
