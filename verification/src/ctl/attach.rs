//! Whether an XDP program is attached to an interface, by `bpftool`.
use vstd::prelude::*;
use vstd::string::StringExecFns;

use crate::ctl::bpftool::{
    number_after, read_number_after, run_tool, tool_run, Query, QueryView, RunView, ToolOutput,
    Tools,
};
use crate::daemon::attach::{AttachInfo, AttachView};
use crate::text::{contains_text, holds, told};

verus! {

/// The number behind the first of three patterns that has one.
pub open spec fn prog_id_in(text: Seq<char>) -> Option<u32> {
    if number_after(text, "prog id "@) is Some {
        number_after(text, "prog id "@)
    } else if number_after(text, "prog/xdp id "@) is Some {
        number_after(text, "prog/xdp id "@)
    } else {
        number_after(text, "generic id "@)
    }
}

/// The number of a program in a text.
pub fn parse_prog_id(text: &str) -> (r: Option<u32>)
    ensures
        r == prog_id_in(text@),
{
    let a = read_number_after(text, "prog id ");
    if a.is_some() {
        return a;
    }
    let b = read_number_after(text, "prog/xdp id ");
    if b.is_some() {
        return b;
    }
    read_number_after(text, "generic id ")
}

/// The attachment in what `bpftool net show` prints.
pub open spec fn attachment_in(o: RunView) -> AttachView {
    AttachView {
        attached: holds(o.stdout, "xdp"@),
        prog_id: if prog_id_in(o.stdout) is Some {
            prog_id_in(o.stdout)
        } else {
            prog_id_in(o.stderr)
        },
        raw: o.stdout + o.stderr,
    }
}

/// The attachment in what `bpftool net show` prints.
pub fn read_attachment(o: ToolOutput) -> (r: AttachInfo)
    ensures
        r@ == attachment_in(o@),
{
    let attached = contains_text(o.stdout.as_str(), "xdp");
    let first = parse_prog_id(o.stdout.as_str());
    let prog_id = if first.is_some() {
        first
    } else {
        parse_prog_id(o.stderr.as_str())
    };
    let mut raw = o.stdout;
    raw.append(o.stderr.as_str());
    AttachInfo { attached, prog_id, raw }
}

/// `bpftool net show` was run for the interface.
pub open spec fn attachment_shown<T: Tools>(
    t: &T,
    iface: Seq<char>,
    r: Result<AttachView, Seq<char>>,
) -> bool {
    exists|o: Result<RunView, Seq<char>>|
        #[trigger] tool_run(t, QueryView::Net(iface), o) && r == match o {
            Err(e) => Err::<AttachView, Seq<char>>(
                "failed to execute 'bpftool net show dev "@ + iface + "': "@ + e,
            ),
            Ok(v) => Ok(attachment_in(v)),
        }
}

/// Whether an XDP program is attached to an interface.
pub fn check_xdp_attached<T: Tools>(t: &T, iface: &str) -> (r: Result<AttachInfo, String>)
    ensures
        attachment_shown(t, iface@, told(r)),
{
    let o = run_tool(t, Query::Net(iface.to_owned()));
    assert(tool_run(t, QueryView::Net(iface@), told(o)));
    match o {
        Err(e) => {
            let mut m = "failed to execute 'bpftool net show dev ".to_string();
            m.append(iface);
            m.append("': ");
            m.append(e.as_str());
            Err(m)
        },
        Ok(v) => Ok(read_attachment(v)),
    }
}

} // verus!
