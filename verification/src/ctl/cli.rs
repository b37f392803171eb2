//! The subcommands of the command-line tool.
use vstd::prelude::*;
use vstd::string::StringExecFns;

use crate::acl_key::{
    parse_acl_addr, parsed_acl_addr, parsed_port, parsed_proto, AclAddr, AclRule, AddrView, PortSpec,
    Proto, RuleView,
};
use crate::ctl::client::{
    acl_add as send_acl_add, acl_del as send_acl_del, acl_list as ask_acl_list,
    acl_vlan_add as send_vlan_add, acl_vlan_del as send_vlan_del, acl_vlan_list as ask_vlan_list,
    add_command, answer, asked, attachment_in, check_xdp_attached as ask_attached, entries_result,
    entry_views, lines_in, lines_result, listed_entries, plain, success_text, vlan_command,
    AclEntry, Channel, Daemon, EntryView, Exchange,
};
use crate::daemon::api::{port_text, rate_text};
use crate::daemon::maps::{after_bracket, opt_str, port_of};
use crate::display::{format_ip, group_texts};
use crate::maps::AclAction;
use crate::protocol::CommandView;
use crate::text::{
    after_prefix, chars_of, count_char, decimal, decimal_text, find, find_char, hex_byte,
    hex_bytes, join, key_to_hex, lemma_find, lower_text, occurrences, opt_pair, opt_text, pad_right,
    padded_right, parse_number, push_decimal, read_number, rfind, rfind_char, same, starts,
    starts_with, sub_text, texts, to_lower, told,
};

verus! {

/// The files of the machine the tool runs on. Nothing is assumed of what they
/// hold.
pub trait Shell {
    /// The text of a file, or why it could not be read.
    fn read_file(&self, path: String) -> Result<String, String>;
}

/// What a subcommand prints, and its exit code or the message it fails with.
#[derive(Debug)]
pub struct Outcome {
    pub out: String,
    pub err: String,
    pub result: Result<i32, String>,
}

#[verifier::ext_equal]
pub struct OutcomeView {
    pub out: Seq<char>,
    pub err: Seq<char>,
    pub result: Result<i32, Seq<char>>,
}

impl View for Outcome {
    type V = OutcomeView;

    open spec fn view(&self) -> OutcomeView {
        OutcomeView { out: self.out@, err: self.err@, result: plain(self.result) }
    }
}

/// A subcommand that prints and succeeds.
pub open spec fn prints(out: Seq<char>) -> OutcomeView {
    OutcomeView { out, err: Seq::empty(), result: Ok(0) }
}

/// A subcommand that fails.
pub open spec fn fails(message: Seq<char>) -> OutcomeView {
    OutcomeView { out: Seq::empty(), err: Seq::empty(), result: Err(message) }
}

pub fn print(out: String) -> (r: Outcome)
    ensures
        r@ == prints(out@),
{
    let r = Outcome { out, err: String::new(), result: Ok(0) };
    assert(r.err@ =~= Seq::empty());
    r
}

pub fn fail(message: String) -> (r: Outcome)
    ensures
        r@ == fails(message@),
{
    let r = Outcome { out: String::new(), err: String::new(), result: Err(message) };
    assert(r.err@ =~= Seq::empty());
    assert(r.out@ =~= Seq::empty());
    r
}

pub fn fail_str(message: &str) -> (r: Outcome)
    ensures
        r@ == fails(message@),
{
    fail(message.to_owned())
}

pub fn fail_with(prefix: &str, e: &str) -> (r: Outcome)
    ensures
        r@ == fails(prefix@ + e@),
{
    let mut m = prefix.to_owned();
    m.append(e);
    fail(m)
}

/// What the tool prints to each stream and its exit code: a failure is printed
/// as an error and exits with 1.
pub fn finish(o: Outcome) -> (r: (String, String, i32))
    ensures
        r.0@ == o@.out,
        match o@.result {
            Ok(code) => r.1@ == o@.err && r.2 == code,
            Err(m) => r.1@ == o@.err + "error: "@ + m + "\n"@ && r.2 == 1,
        },
{
    match o.result {
        Ok(code) => (o.out, o.err, code),
        Err(m) => {
            let mut err = o.err;
            err.append("error: ");
            err.append(m.as_str());
            err.append("\n");
            (o.out, err, 1)
        },
    }
}

// ---- Arguments ----

/// The texts of a list of names.
pub open spec fn names(v: Seq<&'static str>) -> Seq<Seq<char>> {
    Seq::new(v.len(), |i: int| v[i]@)
}

/// The index of the first of the first `n` arguments that is one of the
/// options and has an argument behind it.
pub open spec fn option_index(opts: Seq<Seq<char>>, args: Seq<Seq<char>>, n: nat) -> Option<int>
    decreases n,
{
    if n == 0 {
        None
    } else {
        match option_index(opts, args, (n - 1) as nat) {
            Some(i) => Some(i),
            None => if opts.contains(args[n - 1]) && n < args.len() {
                Some(n - 1)
            } else {
                None
            },
        }
    }
}

/// The value of an option.
pub open spec fn option_value(opts: Seq<Seq<char>>, args: Seq<Seq<char>>) -> Option<Seq<char>> {
    match option_index(opts, args, args.len()) {
        Some(i) => Some(args[i + 1]),
        None => None,
    }
}

/// The arguments without the options and their values, and whether the next
/// argument would be a value.
pub open spec fn strip(opts: Seq<Seq<char>>, args: Seq<Seq<char>>) -> (Seq<Seq<char>>, bool)
    decreases args.len(),
{
    if args.len() == 0 {
        (Seq::empty(), false)
    } else {
        let (kept, skip) = strip(opts, args.drop_last());
        if skip {
            (kept, false)
        } else if opts.contains(args.last()) {
            (kept, true)
        } else {
            (kept.push(args.last()), false)
        }
    }
}

fn is_one_of(opts: &Vec<&'static str>, arg: &str) -> (r: bool)
    ensures
        r == names(opts@).contains(arg@),
{
    let mut i: usize = 0;
    while i < opts.len()
        invariant
            i <= opts@.len(),
            forall|j: int| 0 <= j < i ==> names(opts@)[j] != arg@,
        decreases opts@.len() - i,
    {
        if same(opts[i], arg) {
            assert(names(opts@)[i as int] == arg@);
            return true;
        }
        i += 1;
    }
    false
}

proof fn lemma_option_index(opts: Seq<Seq<char>>, args: Seq<Seq<char>>, i: nat, n: nat)
    requires
        i < n <= args.len(),
        option_index(opts, args, i) is None,
        opts.contains(args[i as int]),
        i + 1 < args.len(),
    ensures
        option_index(opts, args, n) == Some(i as int),
    decreases n,
{
    if n > i + 1 {
        lemma_option_index(opts, args, i, (n - 1) as nat);
    }
}

/// The value of an option.
pub fn get_opt(opts: &Vec<&'static str>, args: &Vec<String>) -> (r: Option<String>)
    ensures
        opt_text(r) == option_value(names(opts@), texts(args@)),
{
    let ghost all = texts(args@);
    let mut i: usize = 0;
    while i < args.len()
        invariant
            i <= args@.len(),
            all == texts(args@),
            option_index(names(opts@), all, i as nat) is None,
        decreases args@.len() - i,
    {
        assert(all[i as int] == args@[i as int]@);
        if is_one_of(opts, args[i].as_str()) {
            if i + 1 < args.len() {
                proof {
                    lemma_option_index(names(opts@), all, i as nat, all.len());
                }
                return Some(args[i + 1].as_str().to_owned());
            }
        }
        i += 1;
    }
    None
}

/// The arguments without the options and their values.
pub fn strip_opt(opts: &Vec<&'static str>, args: &Vec<String>) -> (r: Vec<String>)
    ensures
        texts(r@) == strip(names(opts@), texts(args@)).0,
{
    let ghost all = texts(args@);
    let mut out: Vec<String> = Vec::new();
    let mut skip: bool = false;
    let mut i: usize = 0;
    assert(all.take(0) =~= Seq::empty());
    assert(texts(out@) =~= Seq::empty());
    while i < args.len()
        invariant
            i <= args@.len(),
            all == texts(args@),
            strip(names(opts@), all.take(i as int)) == (texts(out@), skip),
        decreases args@.len() - i,
    {
        assert(all.take(i + 1).drop_last() =~= all.take(i as int));
        assert(all.take(i + 1).last() == args@[i as int]@);
        if skip {
            skip = false;
        } else if is_one_of(opts, args[i].as_str()) {
            skip = true;
        } else {
            let ghost before = out@;
            out.push(args[i].as_str().to_owned());
            assert(texts(out@) =~= texts(before).push(args@[i as int]@));
        }
        i += 1;
    }
    assert(all.take(i as int) =~= all);
    out
}

pub fn tail(args: &Vec<String>) -> (r: Vec<String>)
    requires
        args@.len() > 0,
    ensures
        texts(r@) == texts(args@).skip(1),
{
    let mut out: Vec<String> = Vec::new();
    let ghost all = texts(args@).skip(1);
    let mut i: usize = 1;
    assert(texts(out@) =~= all.take(0));
    while i < args.len()
        invariant
            1 <= i <= args@.len(),
            all == texts(args@).skip(1),
            texts(out@) == all.take(i - 1),
        decreases args@.len() - i,
    {
        let ghost before = out@;
        out.push(args[i].as_str().to_owned());
        assert(texts(out@) =~= texts(before).push(args@[i as int]@));
        assert(all.take(i as int) =~= all.take(i - 1).push(args@[i as int]@));
        i += 1;
    }
    assert(all.take(i - 1) =~= all);
    out
}

pub open spec fn iface_names() -> Seq<Seq<char>> {
    seq!["--iface"@, "-i"@]
}

/// The interface named, `end0` where none is.
pub open spec fn iface_of(args: Seq<Seq<char>>) -> Seq<char> {
    match option_value(iface_names(), args) {
        Some(i) => i,
        None => "end0"@,
    }
}

fn iface_option(args: &Vec<String>) -> (r: Option<String>)
    ensures
        opt_text(r) == option_value(iface_names(), texts(args@)),
{
    let opts: Vec<&'static str> = vec!["--iface", "-i"];
    assert(names(opts@) =~= iface_names());
    get_opt(&opts, args)
}

pub fn iface_or_default(args: &Vec<String>) -> (r: String)
    ensures
        r@ == iface_of(texts(args@)),
{
    match iface_option(args) {
        Some(i) => i,
        None => "end0".to_string(),
    }
}

fn one_option(name: &'static str, args: &Vec<String>) -> (r: Option<String>)
    ensures
        opt_text(r) == option_value(seq![name@], texts(args@)),
{
    let opts: Vec<&'static str> = vec![name];
    assert(names(opts@) =~= seq![name@]);
    get_opt(&opts, args)
}

// ---- Texts ----

/// An address of a rule as a text, without its prefix.
pub open spec fn addr_text(a: AddrView) -> Seq<char> {
    if a.v6 {
        join(group_texts(a.addr, 8), ":"@)
    } else {
        decimal(a.addr[0] as int) + "."@ + decimal(a.addr[1] as int) + "."@ + decimal(
            a.addr[2] as int,
        ) + "."@ + decimal(a.addr[3] as int)
    }
}

/// An address of a rule as a text.
pub fn fmt_acl_addr(addr: &AclAddr) -> (r: String)
    ensures
        r@ == addr_text(addr@),
{
    match addr {
        AclAddr::V4(v4) => {
            let o = v4.addr();
            let mut s = decimal_text(o[0] as u64);
            s.append(".");
            push_decimal(&mut s, o[1] as u64);
            s.append(".");
            push_decimal(&mut s, o[2] as u64);
            s.append(".");
            push_decimal(&mut s, o[3] as u64);
            s
        },
        AclAddr::V6(v6) => format_ip(&v6.addr(), 6),
    }
}

/// The last byte of an IPv4 address; 0 for IPv6.
pub open spec fn last_byte(a: AddrView) -> u8 {
    if a.v6 {
        0
    } else {
        a.addr[3]
    }
}

/// The last byte of an IPv4 address, for debugging.
pub fn src_ip_to_mapped_hex(addr: &AclAddr) -> (r: u8)
    ensures
        r == last_byte(addr@),
{
    match addr {
        AclAddr::V4(v4) => v4.to_mapped()[15],
        AclAddr::V6(_) => 0,
    }
}

/// A port as a text.
pub fn port_name(port: u16) -> (r: String)
    ensures
        r@ == port_text(port),
{
    if port == 0 {
        "any".to_string()
    } else {
        decimal_text(port as u64)
    }
}

/// The name of a protocol.
pub fn proto_name(proto: Proto) -> (r: &'static str)
    ensures
        r@ == proto.spec_name(),
{
    proto.name()
}

/// The name of a protocol number.
pub open spec fn number_name(n: u8) -> Seq<char> {
    match n {
        6 => "tcp"@,
        17 => "udp"@,
        1 => "icmp"@,
        58 => "icmpv6"@,
        _ => "unknown"@,
    }
}

fn name_of_number(n: u8) -> (r: &'static str)
    ensures
        r@ == number_name(n),
{
    match n {
        6 => "tcp",
        17 => "udp",
        1 => "icmp",
        58 => "icmpv6",
        _ => "unknown",
    }
}

/// Ten columns of a line of the ACL list.
pub open spec fn acl_row(
    id: Seq<char>,
    plen: Seq<char>,
    fam: Seq<char>,
    src: Seq<char>,
    dst: Seq<char>,
    proto: Seq<char>,
    sport: Seq<char>,
    dport: Seq<char>,
    rate: Seq<char>,
    action: Seq<char>,
) -> Seq<char> {
    pad_right(id, 3) + " "@ + pad_right(plen, 5) + " "@ + pad_right(fam, 4) + " "@ + pad_right(
        src,
        34,
    ) + " "@ + pad_right(dst, 34) + " "@ + pad_right(proto, 4) + " "@ + pad_right(sport, 6) + " "@
        + pad_right(dport, 6) + " "@ + pad_right(rate, 5) + " "@ + action + "\n"@
}

fn push_column(s: &mut String, t: &str, width: usize)
    ensures
        final(s)@ == old(s)@ + " "@ + pad_right(t@, width as int),
{
    s.append(" ");
    s.append(padded_right(t, width).as_str());
}

fn row(
    id: &str,
    plen: &str,
    fam: &str,
    src: &str,
    dst: &str,
    proto: &str,
    sport: &str,
    dport: &str,
    rate: &str,
    action: &str,
) -> (r: String)
    ensures
        r@ == acl_row(id@, plen@, fam@, src@, dst@, proto@, sport@, dport@, rate@, action@),
{
    let mut s = padded_right(id, 3);
    push_column(&mut s, plen, 5);
    push_column(&mut s, fam, 4);
    push_column(&mut s, src, 34);
    push_column(&mut s, dst, 34);
    push_column(&mut s, proto, 4);
    push_column(&mut s, sport, 6);
    push_column(&mut s, dport, 6);
    push_column(&mut s, rate, 5);
    s.append(" ");
    s.append(action);
    s.append("\n");
    s
}

pub open spec fn acl_header() -> Seq<char> {
    acl_row(
        "id"@,
        "plen"@,
        "fam"@,
        "src"@,
        "dst"@,
        "proto"@,
        "sport"@,
        "dport"@,
        "rate"@,
        "action"@,
    )
}

pub open spec fn entry_row(e: EntryView) -> Seq<char> {
    acl_row(
        decimal(e.id),
        decimal(e.prefix_len as int),
        decimal(e.family as int),
        addr_text(e.rule.src),
        addr_text(e.rule.dst),
        number_name(e.ip_proto),
        port_text(e.src_port),
        port_text(e.dst_port),
        rate_text(e.rule.rate),
        e.action,
    )
}

/// The table of the ACL list.
pub open spec fn acl_table(v: Seq<EntryView>) -> Seq<char>
    decreases v.len(),
{
    if v.len() == 0 {
        acl_header()
    } else {
        acl_table(v.drop_last()) + entry_row(v.last())
    }
}

fn rate_string(r: u32) -> (s: String)
    ensures
        s@ == rate_text(r),
{
    if r > 0 {
        decimal_text(r as u64)
    } else {
        "-".to_string()
    }
}

fn format_entry(e: &AclEntry) -> (r: String)
    ensures
        r@ == entry_row(e@),
{
    row(
        decimal_text(e.id as u64).as_str(),
        decimal_text(e.prefix_len as u64).as_str(),
        decimal_text(e.family as u64).as_str(),
        fmt_acl_addr(&e.rule.src).as_str(),
        fmt_acl_addr(&e.rule.dst).as_str(),
        name_of_number(e.ip_proto),
        port_name(e.src_port).as_str(),
        port_name(e.dst_port).as_str(),
        rate_string(e.rule.rate).as_str(),
        e.action.as_str(),
    )
}

fn format_table(v: &Vec<AclEntry>) -> (r: String)
    ensures
        r@ == acl_table(entry_views(v@)),
{
    let mut s = row(
        "id",
        "plen",
        "fam",
        "src",
        "dst",
        "proto",
        "sport",
        "dport",
        "rate",
        "action",
    );
    let ghost all = entry_views(v@);
    let mut i: usize = 0;
    assert(all.take(0) =~= Seq::empty());
    while i < v.len()
        invariant
            i <= v@.len(),
            all == entry_views(v@),
            s@ == acl_table(all.take(i as int)),
        decreases v@.len() - i,
    {
        assert(all.take(i + 1).drop_last() =~= all.take(i as int));
        assert(all.take(i + 1).last() == v@[i as int]@);
        s.append(format_entry(&v[i]).as_str());
        i += 1;
    }
    assert(all.take(i as int) =~= all);
    s
}

// ---- check-attach ----

/// An optional number as a text.
pub open spec fn some_text(n: Option<u32>) -> Seq<char> {
    match n {
        Some(v) => "Some("@ + decimal(v as int) + ")"@,
        None => "None"@,
    }
}

fn push_some(s: &mut String, n: Option<u32>)
    ensures
        final(s)@ == old(s)@ + some_text(n),
{
    match n {
        Some(v) => {
            s.append("Some(");
            push_decimal(s, v as u64);
            s.append(")");
            assert(s@ =~= old(s)@ + some_text(n));
        },
        None => {
            s.append("None");
        },
    }
}

pub open spec fn not_attached(iface: Seq<char>) -> Seq<char> {
    "WARNING: XDP not detected on interface '"@ + iface
        + "'.\n             Check that the program is loaded, for example:\n\n                   sudo ip link set dev "@
        + iface
        + " xdp obj \\\n\n                     target/bpfel-unknown-none/release/libebpf_xdp.so sec xdp verbose\n"@
}

/// The outcome of `check-attach` for an answer.
pub open spec fn attach_outcome(
    iface: Seq<char>,
    a: Result<(bool, Option<u32>), Seq<char>>,
) -> OutcomeView {
    match a {
        Err(e) => fails("Failed to check XDP attachment: "@ + e),
        Ok((attached, prog_id)) => if attached {
            prints(
                "OK: XDP attached to '"@ + iface + "' (prog id "@ + some_text(prog_id) + ")\n"@,
            )
        } else {
            OutcomeView { out: Seq::empty(), err: not_attached(iface), result: Ok(2) }
        },
    }
}

/// The outcome of `check-attach` for an answer.
pub fn show_attachment(iface: &str, a: Result<(bool, Option<u32>), String>) -> (r: Outcome)
    ensures
        r@ == attach_outcome(iface@, plain(a)),
{
    match a {
        Err(e) => fail_with("Failed to check XDP attachment: ", e.as_str()),
        Ok((attached, prog_id)) => {
            if attached {
                let mut s = "OK: XDP attached to '".to_string();
                s.append(iface);
                s.append("' (prog id ");
                push_some(&mut s, prog_id);
                s.append(")\n");
                print(s)
            } else {
                let mut s = "WARNING: XDP not detected on interface '".to_string();
                s.append(iface);
                s.append(
                    "'.\n             Check that the program is loaded, for example:\n\n                   sudo ip link set dev ",
                );
                s.append(iface);
                s.append(
                    " xdp obj \\\n\n                     target/bpfel-unknown-none/release/libebpf_xdp.so sec xdp verbose\n",
                );
                let r = Outcome { out: String::new(), err: s, result: Ok(2) };
                assert(r.out@ =~= Seq::empty());
                r
            }
        },
    }
}

/// `check-attach` with its arguments.
pub open spec fn check_attach_ran(
    before: Seq<Exchange>,
    args: Seq<Seq<char>>,
    after: Seq<Exchange>,
    r: OutcomeView,
) -> bool {
    match option_value(iface_names(), args) {
        None => after == before && r == fails("--iface <dev> required (e.g., end0)"@),
        Some(iface) => {
            &&& asked(before, CommandView::CheckXdpAttached { iface }, after)
            &&& r == attach_outcome(iface, attachment_in(answer(after)))
        },
    }
}

pub fn check_attach_cmd<D: Daemon>(d: &mut Channel<D>, args: &Vec<String>) -> (r: Outcome)
    ensures
        final(d).daemon() == old(d).daemon(),
        check_attach_ran(old(d).log(), texts(args@), final(d).log(), r@),
{
    match iface_option(args) {
        None => fail_str("--iface <dev> required (e.g., end0)"),
        Some(iface) => {
            let a = ask_attached(d, iface.as_str());
            show_attachment(iface.as_str(), a)
        },
    }
}

// ---- acl list ----

/// The outcome of `acl list` for an answer.
pub open spec fn acl_list_outcome(e: Result<Seq<EntryView>, Seq<char>>) -> OutcomeView {
    match e {
        Err(m) => fails("Failed to get ACL list: "@ + m),
        Ok(v) => if v.len() == 0 {
            prints("(l4_acl map is empty)\n"@)
        } else {
            prints(acl_table(v))
        },
    }
}

/// The outcome of `acl list` for an answer.
pub fn show_acl_list(e: Result<Vec<AclEntry>, String>) -> (r: Outcome)
    ensures
        r@ == acl_list_outcome(entries_result(e)),
{
    match e {
        Err(m) => fail_with("Failed to get ACL list: ", m.as_str()),
        Ok(v) => {
            if v.len() == 0 {
                print("(l4_acl map is empty)\n".to_string())
            } else {
                print(format_table(&v))
            }
        },
    }
}

pub open spec fn acl_list_ran(
    before: Seq<Exchange>,
    args: Seq<Seq<char>>,
    after: Seq<Exchange>,
    r: OutcomeView,
) -> bool {
    &&& asked(before, CommandView::AclList { iface: iface_of(args) }, after)
    &&& r == acl_list_outcome(listed_entries(answer(after)))
}

pub fn acl_list<D: Daemon>(d: &mut Channel<D>, args: &Vec<String>) -> (r: Outcome)
    ensures
        final(d).daemon() == old(d).daemon(),
        acl_list_ran(old(d).log(), texts(args@), final(d).log(), r@),
{
    let iface = iface_or_default(args);
    let e = ask_acl_list(d, iface.as_str());
    show_acl_list(e)
}

// ---- acl add ----

/// The endpoint of a text: `any` and `*` are all IPv4 addresses and any port.
/// An IPv6 address may stand in brackets before the port; else what follows the
/// last colon is the port. A protocol without ports has port 0.
pub open spec fn parsed_endpoint(s: Seq<char>, name: Seq<char>, proto: Proto) -> Result<
    (AddrView, u16),
    Seq<char>,
> {
    if lower_text(s) == "any"@ || s == "*"@ {
        match parsed_acl_addr("0.0.0.0/0"@) {
            Err(e) => Err(e),
            Ok(a) => Ok((a, 0)),
        }
    } else {
        match endpoint_parts(s) {
            None => Err("invalid "@ + name + ": '"@ + s + "'"@),
            Some((addr, port)) => endpoint_of(addr, port, name, proto),
        }
    }
}

/// The address and the port of an endpoint. One without an address before its
/// colons, or with a bracket that is not closed, has none.
pub open spec fn endpoint_parts(s: Seq<char>) -> Option<(Seq<char>, Seq<char>)> {
    if starts(s, "["@) {
        match find(s, ']') {
            Some(end) => Some((s.subrange(1, end), after_bracket(s, end))),
            None => None,
        }
    } else {
        match rfind(s, ':') {
            Some(pos) => if pos == 0 && occurrences(s, ':') > 1 {
                None
            } else {
                Some((s.take(pos), s.skip(pos + 1)))
            },
            None => Some((s, ""@)),
        }
    }
}

pub open spec fn endpoint_of(
    addr: Seq<char>,
    port: Seq<char>,
    name: Seq<char>,
    proto: Proto,
) -> Result<(AddrView, u16), Seq<char>> {
    match parsed_acl_addr(addr) {
        Err(e) => Err(e),
        Ok(a) => if proto.portless() {
            Ok((a, 0))
        } else {
            match parsed_port(port) {
                Err(e) => Err("invalid port in "@ + name + ": "@ + e),
                Ok(PortSpec::Exact(p)) => Ok((a, p)),
                Ok(PortSpec::Any) => Ok((a, 0)),
            }
        },
    }
}

pub open spec fn endpoint_view(r: Result<(AclAddr, u16), String>) -> Result<
    (AddrView, u16),
    Seq<char>,
> {
    match r {
        Ok((a, p)) => Ok((a@, p)),
        Err(e) => Err(e@),
    }
}

fn split_endpoint(s: &str) -> (r: Option<(String, String)>)
    ensures
        opt_pair(r) == endpoint_parts(s@),
{
    let v = chars_of(s);
    let n: usize = v.len();
    if starts_with(s, "[") {
        proof {
            reveal_strlit("[");
            lemma_find(s@, ']');
            assert(s@.take(1)[0] == s@[0]);
        }
        return match find_char(&v, ']') {
            Some(end) => {
                let a = sub_text(&v, 1, end);
                let rest = sub_text(&v, end + 1, n);
                assert(rest@ =~= s@.skip(end + 1));
                let b = match after_prefix(rest.as_str(), ":") {
                    Some(port) => {
                        proof {
                            reveal_strlit(":");
                        }
                        port
                    },
                    None => rest,
                };
                Some((a, b))
            },
            None => None,
        };
    }
    match rfind_char(&v, ':') {
        Some(pos) => {
            if pos == 0 && count_char(s, ':') > 1 {
                return None;
            }
            let a = sub_text(&v, 0, pos);
            let b = sub_text(&v, pos + 1, n);
            assert(a@ =~= s@.take(pos as int));
            assert(b@ =~= s@.skip(pos + 1));
            Some((a, b))
        },
        None => Some((s.to_owned(), "".to_string())),
    }
}

/// Reads an endpoint such as `192.168.0.1:80`, `0.0.0.0/0:any` or `[::1]:80`.
pub fn parse_endpoint(s: &str, name: &str, proto: Proto) -> (r: Result<(AclAddr, u16), String>)
    ensures
        endpoint_view(r) == parsed_endpoint(s@, name@, proto),
{
    if same(to_lower(s).as_str(), "any") || same(s, "*") {
        return match parse_acl_addr("0.0.0.0/0") {
            Ok(a) => Ok((a, 0)),
            Err(e) => Err(e),
        };
    }
    let (addr_str, port_str) = match split_endpoint(s) {
        Some(p) => p,
        None => {
            let mut m = "invalid ".to_string();
            m.append(name);
            m.append(": '");
            m.append(s);
            m.append("'");
            return Err(m);
        },
    };
    let addr = match parse_acl_addr(addr_str.as_str()) {
        Ok(a) => a,
        Err(e) => {
            return Err(e);
        },
    };
    if proto.is_portless() {
        return Ok((addr, 0));
    }
    match PortSpec::parse(port_str.as_str()) {
        Err(e) => {
            let mut m = "invalid port in ".to_string();
            m.append(name);
            m.append(": ");
            m.append(e.as_str());
            Err(m)
        },
        Ok(p) => match p {
            PortSpec::Exact(n) => Ok((addr, n)),
            PortSpec::Any => Ok((addr, 0)),
        },
    }
}

pub open spec fn add_options() -> Seq<Seq<char>> {
    seq!["--iface"@, "-i"@, "--proto"@, "-p"@, "proto"@, "src"@, "dst"@, "rate"@]
}

pub open spec fn proto_names() -> Seq<Seq<char>> {
    seq!["--proto"@, "-p"@, "proto"@]
}

/// A rule to be added: the endpoints as they were written, and the rule.
#[verifier::ext_equal]
pub struct AddRequest {
    pub src: Seq<char>,
    pub dst: Seq<char>,
    pub src_port: u16,
    pub dst_port: u16,
    pub rule: RuleView,
}

/// ICMP between IPv6 addresses is ICMPv6.
pub open spec fn icmp_between(proto: Proto, src: AddrView, dst: AddrView) -> Proto {
    if proto == Proto::Icmp && src.v6 && dst.v6 {
        Proto::Icmpv6
    } else {
        proto
    }
}

/// The action of a word of the tool.
pub open spec fn tool_action(s: Seq<char>) -> Result<AclAction, Seq<char>> {
    if s == "drop"@ {
        Ok(AclAction::Drop)
    } else if s == "allow"@ {
        Ok(AclAction::Allow)
    } else {
        Err("unknown action: '"@ + s + "' (expected allow|drop)"@)
    }
}

/// The rate of the arguments, 0 where none can be read.
pub open spec fn add_rate(args: Seq<Seq<char>>) -> u32 {
    match option_value(seq!["rate"@], args) {
        Some(s) => match parse_number(s, 10, u32::MAX as int) {
            Some(n) => n as u32,
            None => 0,
        },
        None => 0,
    }
}

/// The protocol of the arguments, TCP where none is named.
pub open spec fn add_proto(args: Seq<Seq<char>>) -> Result<Proto, Seq<char>> {
    match option_value(proto_names(), args) {
        Some(p) => parsed_proto(p),
        None => Ok(Proto::Tcp),
    }
}

/// The rule that the arguments of `acl add` name.
pub open spec fn parsed_add(args: Seq<Seq<char>>) -> Result<AddRequest, Seq<char>> {
    let positional = strip(add_options(), args).0;
    if positional.len() == 0 {
        Err("'allow' or 'drop' action required"@)
    } else {
        match tool_action(positional[0]) {
            Err(e) => Err(e),
            Ok(action) => match option_value(seq!["src"@], args) {
                None => Err("src <ip>:<port|any> required"@),
                Some(src) => match option_value(seq!["dst"@], args) {
                    None => Err("dst <ip>:<port|any> required"@),
                    Some(dst) => parsed_add_between(args, action, src, dst),
                },
            },
        }
    }
}

pub open spec fn parsed_add_between(
    args: Seq<Seq<char>>,
    action: AclAction,
    src: Seq<char>,
    dst: Seq<char>,
) -> Result<AddRequest, Seq<char>> {
    match add_proto(args) {
        Err(e) => Err(e),
        Ok(p) => match parsed_endpoint(src, "src"@, p) {
            Err(e) => Err(e),
            Ok((src_addr, src_port)) => match parsed_endpoint(dst, "dst"@, p) {
                Err(e) => Err(e),
                Ok((dst_addr, dst_port)) => Ok(
                    AddRequest {
                        src,
                        dst,
                        src_port,
                        dst_port,
                        rule: RuleView {
                            action,
                            src: src_addr,
                            dst: dst_addr,
                            proto: icmp_between(p, src_addr, dst_addr),
                            sport: port_of(src_port),
                            dport: port_of(dst_port),
                            tcp_flags: 0,
                            rate: add_rate(args),
                        },
                    },
                ),
            },
        },
    }
}

/// A rule to be added.
#[derive(Debug)]
pub struct AddArgs {
    pub src: String,
    pub dst: String,
    pub src_port: u16,
    pub dst_port: u16,
    pub rule: AclRule,
}

impl View for AddArgs {
    type V = AddRequest;

    open spec fn view(&self) -> AddRequest {
        AddRequest {
            src: self.src@,
            dst: self.dst@,
            src_port: self.src_port,
            dst_port: self.dst_port,
            rule: self.rule@,
        }
    }
}

fn read_action(s: &str) -> (r: Result<AclAction, String>)
    ensures
        told(r) == tool_action(s@),
{
    if same(s, "drop") {
        Ok(AclAction::Drop)
    } else if same(s, "allow") {
        Ok(AclAction::Allow)
    } else {
        let mut m = "unknown action: '".to_string();
        m.append(s);
        m.append("' (expected allow|drop)");
        Err(m)
    }
}

fn read_rate(args: &Vec<String>) -> (r: u32)
    ensures
        r == add_rate(texts(args@)),
{
    match one_option("rate", args) {
        Some(s) => match read_number(s.as_str(), 10, 0xffff_ffff) {
            Some(n) => n as u32,
            None => 0,
        },
        None => 0,
    }
}

fn read_proto(args: &Vec<String>) -> (r: Result<Proto, String>)
    ensures
        told(r) == add_proto(texts(args@)),
{
    let opts: Vec<&'static str> = vec!["--proto", "-p", "proto"];
    assert(names(opts@) =~= proto_names());
    match get_opt(&opts, args) {
        Some(p) => Proto::parse(p.as_str()),
        None => Ok(Proto::Tcp),
    }
}

fn is_v6(a: &AclAddr) -> (r: bool)
    ensures
        r == a@.v6,
{
    match a {
        AclAddr::V4(_) => false,
        AclAddr::V6(_) => true,
    }
}

fn is_icmp(p: Proto) -> (r: bool)
    ensures
        r == (p == Proto::Icmp),
{
    match p {
        Proto::Icmp => true,
        _ => false,
    }
}

fn port_spec(p: u16) -> (r: PortSpec)
    ensures
        r == port_of(p),
{
    if p == 0 {
        PortSpec::Any
    } else {
        PortSpec::Exact(p)
    }
}

fn read_add_between(args: &Vec<String>, action: AclAction, src: String, dst: String) -> (r: Result<
    AddArgs,
    String,
>)
    ensures
        told(r) == parsed_add_between(texts(args@), action, src@, dst@),
{
    let proto = match read_proto(args) {
        Ok(p) => p,
        Err(e) => {
            return Err(e);
        },
    };
    let (src_ip, src_port) = match parse_endpoint(src.as_str(), "src", proto) {
        Ok(e) => e,
        Err(e) => {
            return Err(e);
        },
    };
    let (dst_ip, dst_port) = match parse_endpoint(dst.as_str(), "dst", proto) {
        Ok(e) => e,
        Err(e) => {
            return Err(e);
        },
    };
    let proto = if is_icmp(proto) && is_v6(&src_ip) && is_v6(&dst_ip) {
        Proto::Icmpv6
    } else {
        proto
    };
    let rule = AclRule {
        action,
        src: src_ip,
        dst: dst_ip,
        proto,
        sport: port_spec(src_port),
        dport: port_spec(dst_port),
        tcp_flags: 0,
        rate: read_rate(args),
    };
    Ok(AddArgs { src, dst, src_port, dst_port, rule })
}

/// Reads the arguments of `acl add`.
pub fn parse_add(args: &Vec<String>) -> (r: Result<AddArgs, String>)
    ensures
        told(r) == parsed_add(texts(args@)),
{
    let opts: Vec<&'static str> = vec![
        "--iface",
        "-i",
        "--proto",
        "-p",
        "proto",
        "src",
        "dst",
        "rate",
    ];
    assert(names(opts@) =~= add_options());
    let positional = strip_opt(&opts, args);
    if positional.len() == 0 {
        return Err("'allow' or 'drop' action required".to_string());
    }
    assert(texts(positional@)[0] == positional@[0]@);
    let action = match read_action(positional[0].as_str()) {
        Ok(a) => a,
        Err(e) => {
            return Err(e);
        },
    };
    match one_option("src", args) {
        None => Err("src <ip>:<port|any> required".to_string()),
        Some(src) => match one_option("dst", args) {
            None => Err("dst <ip>:<port|any> required".to_string()),
            Some(dst) => read_add_between(args, action, src, dst),
        },
    }
}

/// The word of an action in a command.
pub open spec fn action_word(a: AclAction) -> Seq<char> {
    match a {
        AclAction::Allow => "allow"@,
        AclAction::Drop => "drop"@,
        AclAction::Redirect => "redirect"@,
        AclAction::Inspect => "inspect"@,
    }
}

fn word_of_action(a: AclAction) -> (r: &'static str)
    ensures
        r@ == action_word(a),
{
    match a {
        AclAction::Allow => "allow",
        AclAction::Drop => "drop",
        AclAction::Redirect => "redirect",
        AclAction::Inspect => "inspect",
    }
}

/// What `--print-key` shows: the map entry of the rule.
pub open spec fn key_text(rule: RuleView) -> Seq<char> {
    "key   : "@ + hex_bytes(rule.key()) + "\nvalue : "@ + hex_bytes(rule.value()) + "\n(action="@
        + crate::daemon::maps::action_name(rule.action) + ", prefix_len="@ + decimal(
        rule.prefix() as int,
    ) + ", family="@ + decimal(rule.src.family() as int) + ", key_len="@ + decimal(
        rule.key().len() as int,
    ) + ", src_mapped="@ + hex_byte(last_byte(rule.src)) + ")\n"@
}

/// What is shown for a rule that was added.
pub open spec fn added_text(q: AddRequest) -> Seq<char> {
    "added rule "@ + crate::daemon::maps::action_name(q.rule.action) + ": "@
        + q.rule.proto.spec_name() + " "@ + addr_text(q.rule.src) + ":"@ + port_text(q.src_port)
        + " -> "@ + addr_text(q.rule.dst) + ":"@ + port_text(q.dst_port) + " (prefix_len="@
        + decimal(q.rule.prefix() as int) + if q.rule.rate > 0 {
        " rate="@ + decimal(q.rule.rate as int)
    } else {
        ""@
    } + ")\n"@
}

pub open spec fn rate_option(rate: u32) -> Option<u32> {
    if rate > 0 {
        Some(rate)
    } else {
        None
    }
}

/// The outcome of `acl add` for an answer: the daemon's text, then the rule.
pub open spec fn add_outcome(q: AddRequest, reply: Result<Seq<char>, Seq<char>>) -> OutcomeView {
    match reply {
        Err(e) => fails("Failed to add rule: "@ + e),
        Ok(m) => prints(m + "\n"@ + added_text(q)),
    }
}

fn format_key(rule: &AclRule) -> (r: String)
    ensures
        r@ == key_text(rule@),
{
    let key = rule.build_key();
    let value = rule.build_value();
    let mut s = "key   : ".to_string();
    s.append(key_to_hex(key.as_slice()).as_str());
    s.append("\nvalue : ");
    s.append(key_to_hex(value.as_slice()).as_str());
    s.append("\n(action=");
    s.append(crate::daemon::maps::name_of_action(rule.action));
    s.append(", prefix_len=");
    push_decimal(&mut s, rule.prefix_len() as u64);
    s.append(", family=");
    push_decimal(&mut s, rule.src.family() as u64);
    s.append(", key_len=");
    push_decimal(&mut s, key.len() as u64);
    s.append(", src_mapped=");
    let one: Vec<u8> = vec![src_ip_to_mapped_hex(&rule.src)];
    let h = key_to_hex(one.as_slice());
    assert(h@ =~= hex_byte(last_byte(rule.src@)));
    s.append(h.as_str());
    s.append(")\n");
    s
}

fn format_added(q: &AddArgs) -> (r: String)
    ensures
        r@ == added_text(q@),
{
    let mut s = "added rule ".to_string();
    s.append(crate::daemon::maps::name_of_action(q.rule.action));
    s.append(": ");
    s.append(proto_name(q.rule.proto));
    s.append(" ");
    s.append(fmt_acl_addr(&q.rule.src).as_str());
    s.append(":");
    s.append(port_name(q.src_port).as_str());
    s.append(" -> ");
    s.append(fmt_acl_addr(&q.rule.dst).as_str());
    s.append(":");
    s.append(port_name(q.dst_port).as_str());
    s.append(" (prefix_len=");
    push_decimal(&mut s, q.rule.prefix_len() as u64);
    let rate_info = if q.rule.rate > 0 {
        let mut t = " rate=".to_string();
        push_decimal(&mut t, q.rule.rate as u64);
        t
    } else {
        "".to_string()
    };
    s.append(rate_info.as_str());
    s.append(")\n");
    s
}

/// The outcome of `acl add` for an answer.
pub fn show_added(q: &AddArgs, reply: Result<String, String>) -> (r: Outcome)
    ensures
        r@ == add_outcome(q@, told(reply)),
{
    match reply {
        Err(e) => fail_with("Failed to add rule: ", e.as_str()),
        Ok(m) => {
            let mut s = m;
            s.append("\n");
            s.append(format_added(q).as_str());
            print(s)
        },
    }
}

/// The command that `acl add` sends.
pub open spec fn request_command(iface: Seq<char>, q: AddRequest) -> CommandView {
    add_command(
        iface,
        action_word(q.rule.action),
        q.src,
        q.dst,
        Some(q.rule.proto.spec_name()),
        rate_option(q.rule.rate),
    )
}

pub open spec fn print_key_asked(args: Seq<Seq<char>>) -> bool {
    args.contains("--print-key"@) || args.contains("-n"@)
}

/// `acl add` with its arguments.
pub open spec fn acl_add_ran(
    before: Seq<Exchange>,
    args: Seq<Seq<char>>,
    after: Seq<Exchange>,
    r: OutcomeView,
) -> bool {
    match parsed_add(args) {
        Err(e) => after == before && r == fails(e),
        Ok(q) => if print_key_asked(args) {
            after == before && r == prints(key_text(q.rule))
        } else {
            &&& asked(before, request_command(iface_of(args), q), after)
            &&& r == add_outcome(q, success_text(answer(after)))
        },
    }
}

fn has_arg(args: &Vec<String>, name: &str) -> (r: bool)
    ensures
        r == texts(args@).contains(name@),
{
    let mut i: usize = 0;
    while i < args.len()
        invariant
            i <= args@.len(),
            forall|j: int| 0 <= j < i ==> texts(args@)[j] != name@,
        decreases args@.len() - i,
    {
        if same(args[i].as_str(), name) {
            assert(texts(args@)[i as int] == name@);
            return true;
        }
        i += 1;
    }
    false
}

pub fn acl_add<D: Daemon>(d: &mut Channel<D>, args: &Vec<String>) -> (r: Outcome)
    ensures
        final(d).daemon() == old(d).daemon(),
        acl_add_ran(old(d).log(), texts(args@), final(d).log(), r@),
{
    let iface = iface_or_default(args);
    let q = match parse_add(args) {
        Ok(q) => q,
        Err(e) => {
            return fail(e);
        },
    };
    if has_arg(args, "--print-key") || has_arg(args, "-n") {
        return print(format_key(&q.rule));
    }
    let rate = if q.rule.rate > 0 {
        Some(q.rule.rate)
    } else {
        None
    };
    let name = q.rule.proto.name();
    assert(opt_str(Some(name)) == Some(q.rule.proto.spec_name()));
    let reply = send_acl_add(
        d,
        iface.as_str(),
        word_of_action(q.rule.action),
        q.src.as_str(),
        q.dst.as_str(),
        Some(name),
        rate,
    );
    show_added(&q, reply)
}

// ---- acl del ----

/// The number of `--id`.
pub open spec fn parsed_id(args: Seq<Seq<char>>, hint: Seq<char>) -> Result<usize, Seq<char>> {
    match option_value(seq!["--id"@], args) {
        None => Err(hint),
        Some(s) => match parse_number(s, 10, usize::MAX as int) {
            Some(n) => Ok(n as usize),
            None => Err("invalid --id: '"@ + s + "'"@),
        },
    }
}

fn read_id(args: &Vec<String>, hint: &str) -> (r: Result<usize, String>)
    ensures
        plain(r) == parsed_id(texts(args@), hint@),
{
    match one_option("--id", args) {
        None => Err(hint.to_owned()),
        Some(s) => match read_number(s.as_str(), 10, usize::MAX as u64) {
            Some(n) => Ok(n as usize),
            None => {
                let mut m = "invalid --id: '".to_string();
                m.append(s.as_str());
                m.append("'");
                Err(m)
            },
        },
    }
}

/// The outcome of a deletion for an answer.
pub open spec fn del_outcome(
    reply: Result<Seq<char>, Seq<char>>,
    failure: Seq<char>,
    what: Seq<char>,
    id: usize,
) -> OutcomeView {
    match reply {
        Err(e) => fails(failure + e),
        Ok(m) => prints(m + "\n"@ + what + decimal(id as int) + "\n"@),
    }
}

fn show_deleted(reply: Result<String, String>, failure: &str, what: &str, id: usize) -> (r: Outcome)
    ensures
        r@ == del_outcome(told(reply), failure@, what@, id),
{
    match reply {
        Err(e) => fail_with(failure, e.as_str()),
        Ok(m) => {
            let mut s = m;
            s.append("\n");
            s.append(what);
            push_decimal(&mut s, id as u64);
            s.append("\n");
            print(s)
        },
    }
}

pub open spec fn acl_del_ran(
    before: Seq<Exchange>,
    args: Seq<Seq<char>>,
    after: Seq<Exchange>,
    r: OutcomeView,
) -> bool {
    match parsed_id(args, "--id <n> required (see 'acl list')"@) {
        Err(e) => after == before && r == fails(e),
        Ok(id) => {
            &&& asked(before, CommandView::AclDel { iface: iface_of(args), id }, after)
            &&& r == del_outcome(
                success_text(answer(after)),
                "Failed to delete rule: "@,
                "deleted rule id="@,
                id,
            )
        },
    }
}

pub fn acl_del<D: Daemon>(d: &mut Channel<D>, args: &Vec<String>) -> (r: Outcome)
    ensures
        final(d).daemon() == old(d).daemon(),
        acl_del_ran(old(d).log(), texts(args@), final(d).log(), r@),
{
    let iface = iface_or_default(args);
    match read_id(args, "--id <n> required (see 'acl list')") {
        Err(e) => fail(e),
        Ok(id) => {
            let reply = send_acl_del(d, iface.as_str(), id);
            show_deleted(reply, "Failed to delete rule: ", "deleted rule id=", id)
        },
    }
}

// ---- acl vlan ----

/// Lines, each with its end.
pub open spec fn lines_text(v: Seq<Seq<char>>) -> Seq<char>
    decreases v.len(),
{
    if v.len() == 0 {
        Seq::empty()
    } else {
        lines_text(v.drop_last()) + v.last() + "\n"@
    }
}

pub open spec fn vlan_header() -> Seq<char> {
    pad_right("id"@, 5) + " "@ + pad_right("outer_vlan"@, 10) + " "@ + pad_right("inner_vlan"@, 10)
        + " "@ + pad_right("action"@, 8) + " "@ + pad_right("rate"@, 6) + "\n"@
}

/// The outcome of `acl vlan list` for an answer.
pub open spec fn vlan_list_outcome(lines: Result<Seq<Seq<char>>, Seq<char>>) -> OutcomeView {
    match lines {
        Err(e) => fails("Failed to get VLAN list: "@ + e),
        Ok(v) => if v.len() == 0 {
            prints("(vlan_acl map is empty)\n"@)
        } else {
            prints(vlan_header() + lines_text(v))
        },
    }
}

fn push_lines(s: &mut String, v: &Vec<String>)
    ensures
        final(s)@ == old(s)@ + lines_text(texts(v@)),
{
    let ghost all = texts(v@);
    let mut i: usize = 0;
    assert(all.take(0) =~= Seq::empty());
    assert(s@ =~= old(s)@ + lines_text(all.take(0)));
    while i < v.len()
        invariant
            i <= v@.len(),
            all == texts(v@),
            s@ == old(s)@ + lines_text(all.take(i as int)),
        decreases v@.len() - i,
    {
        assert(all.take(i + 1).drop_last() =~= all.take(i as int));
        assert(all.take(i + 1).last() == v@[i as int]@);
        s.append(v[i].as_str());
        s.append("\n");
        assert(s@ =~= old(s)@ + lines_text(all.take(i + 1)));
        i += 1;
    }
    assert(all.take(i as int) =~= all);
}

/// The outcome of `acl vlan list` for an answer.
pub fn show_vlan_list(lines: Result<Vec<String>, String>) -> (r: Outcome)
    ensures
        r@ == vlan_list_outcome(lines_result(lines)),
{
    match lines {
        Err(e) => fail_with("Failed to get VLAN list: ", e.as_str()),
        Ok(v) => {
            if v.len() == 0 {
                return print("(vlan_acl map is empty)\n".to_string());
            }
            let mut s = padded_right("id", 5);
            push_column(&mut s, "outer_vlan", 10);
            push_column(&mut s, "inner_vlan", 10);
            push_column(&mut s, "action", 8);
            push_column(&mut s, "rate", 6);
            s.append("\n");
            push_lines(&mut s, &v);
            print(s)
        },
    }
}

pub open spec fn vlan_list_ran(
    before: Seq<Exchange>,
    args: Seq<Seq<char>>,
    after: Seq<Exchange>,
    r: OutcomeView,
) -> bool {
    &&& asked(before, CommandView::AclVlanList { iface: iface_of(args) }, after)
    &&& r == vlan_list_outcome(lines_in(answer(after)))
}

pub fn acl_vlan_list<D: Daemon>(d: &mut Channel<D>, args: &Vec<String>) -> (r: Outcome)
    ensures
        final(d).daemon() == old(d).daemon(),
        vlan_list_ran(old(d).log(), texts(args@), final(d).log(), r@),
{
    let iface = iface_or_default(args);
    let lines = ask_vlan_list(d, iface.as_str());
    show_vlan_list(lines)
}

pub open spec fn vlan_options() -> Seq<Seq<char>> {
    seq!["--iface"@, "-i"@, "inner"@, "rate"@]
}

/// A VLAN rule to be added.
#[derive(Clone, Copy, Debug)]
pub struct VlanArgs {
    pub vlan_id: u16,
    pub drop: bool,
    pub inner_vlan: Option<u16>,
    pub rate: Option<u32>,
}

impl View for VlanArgs {
    type V = VlanArgs;

    open spec fn view(&self) -> VlanArgs {
        *self
    }
}

/// The number of an option, where it can be read.
pub open spec fn number_option(name: Seq<char>, args: Seq<Seq<char>>, max: int) -> Option<int> {
    match option_value(seq![name], args) {
        Some(s) => parse_number(s, 10, max),
        None => None,
    }
}

/// The VLAN rule that the arguments name.
pub open spec fn parsed_vlan(args: Seq<Seq<char>>) -> Result<VlanArgs, Seq<char>> {
    let p = strip(vlan_options(), args).0;
    if p.len() < 2 {
        Err(
            "usage: ebpf-ctl acl vlan add <vlan-id> <allow|drop> [inner <inner-vlan-id>] [rate <pps>]"@,
        )
    } else {
        match parse_number(p[0], 10, 65535) {
            None => Err("invalid vlan-id: '"@ + p[0] + "'"@),
            Some(id) => match tool_action(p[1]) {
                Err(e) => Err(e),
                Ok(a) => Ok(
                    VlanArgs {
                        vlan_id: id as u16,
                        drop: a == AclAction::Drop,
                        inner_vlan: match number_option("inner"@, args, 65535) {
                            Some(n) => Some(n as u16),
                            None => None,
                        },
                        rate: match number_option("rate"@, args, u32::MAX as int) {
                            Some(n) => Some(n as u32),
                            None => None,
                        },
                    },
                ),
            },
        }
    }
}

fn read_number_option(name: &'static str, args: &Vec<String>, max: u64) -> (r: Option<u64>)
    ensures
        match (r, number_option(name@, texts(args@), max as int)) {
            (Some(a), Some(b)) => a == b && a <= max,
            (None, None) => true,
            _ => false,
        },
{
    match one_option(name, args) {
        Some(s) => read_number(s.as_str(), 10, max),
        None => None,
    }
}

/// Reads the arguments of `acl vlan add`.
pub fn parse_vlan(args: &Vec<String>) -> (r: Result<VlanArgs, String>)
    ensures
        told(r) == parsed_vlan(texts(args@)),
{
    let opts: Vec<&'static str> = vec!["--iface", "-i", "inner", "rate"];
    assert(names(opts@) =~= vlan_options());
    let p = strip_opt(&opts, args);
    if p.len() < 2 {
        return Err(
            "usage: ebpf-ctl acl vlan add <vlan-id> <allow|drop> [inner <inner-vlan-id>] [rate <pps>]"
                .to_string(),
        );
    }
    assert(texts(p@)[0] == p@[0]@);
    assert(texts(p@)[1] == p@[1]@);
    let vlan_id: u16 = match read_number(p[0].as_str(), 10, 65535) {
        Some(n) => n as u16,
        None => {
            let mut m = "invalid vlan-id: '".to_string();
            m.append(p[0].as_str());
            m.append("'");
            return Err(m);
        },
    };
    let action = match read_action(p[1].as_str()) {
        Ok(a) => a,
        Err(e) => {
            return Err(e);
        },
    };
    let inner_vlan = match read_number_option("inner", args, 65535) {
        Some(n) => Some(n as u16),
        None => None,
    };
    let rate = match read_number_option("rate", args, 0xffff_ffff) {
        Some(n) => Some(n as u32),
        None => None,
    };
    let drop = match action {
        AclAction::Drop => true,
        _ => false,
    };
    Ok(VlanArgs { vlan_id, drop, inner_vlan, rate })
}

pub open spec fn drop_word(drop: bool) -> Seq<char> {
    if drop {
        "drop"@
    } else {
        "allow"@
    }
}

/// What is shown for a VLAN rule that was added.
pub open spec fn vlan_added_text(v: VlanArgs) -> Seq<char> {
    "added vlan rule (outer="@ + decimal(v.vlan_id as int) + match v.inner_vlan {
        Some(i) => " inner="@ + decimal(i as int),
        None => ""@,
    } + match v.rate {
        Some(r) => " rate="@ + decimal(r as int),
        None => ""@,
    } + "): "@ + drop_word(v.drop) + "\n"@
}

/// The outcome of `acl vlan add` for an answer.
pub open spec fn vlan_add_outcome(v: VlanArgs, reply: Result<Seq<char>, Seq<char>>) -> OutcomeView {
    match reply {
        Err(e) => fails("Failed to add VLAN rule: "@ + e),
        Ok(m) => prints(m + "\n"@ + vlan_added_text(v)),
    }
}

fn labelled(label: &str, n: Option<u64>) -> (r: String)
    ensures
        r@ == match n {
            Some(v) => label@ + decimal(v as int),
            None => ""@,
        },
{
    match n {
        Some(v) => {
            let mut s = label.to_owned();
            push_decimal(&mut s, v);
            s
        },
        None => "".to_string(),
    }
}

fn word_of_drop(drop: bool) -> (r: &'static str)
    ensures
        r@ == drop_word(drop),
{
    if drop {
        "drop"
    } else {
        "allow"
    }
}

/// The outcome of `acl vlan add` for an answer.
pub fn show_vlan_added(v: VlanArgs, reply: Result<String, String>) -> (r: Outcome)
    ensures
        r@ == vlan_add_outcome(v, told(reply)),
{
    match reply {
        Err(e) => fail_with("Failed to add VLAN rule: ", e.as_str()),
        Ok(m) => {
            let inner = match v.inner_vlan {
                Some(i) => Some(i as u64),
                None => None,
            };
            let rate = match v.rate {
                Some(n) => Some(n as u64),
                None => None,
            };
            let mut t = "added vlan rule (outer=".to_string();
            push_decimal(&mut t, v.vlan_id as u64);
            t.append(labelled(" inner=", inner).as_str());
            t.append(labelled(" rate=", rate).as_str());
            t.append("): ");
            t.append(word_of_drop(v.drop));
            t.append("\n");
            assert(t@ == vlan_added_text(v));
            let mut s = m;
            s.append("\n");
            s.append(t.as_str());
            print(s)
        },
    }
}

pub open spec fn vlan_add_ran(
    before: Seq<Exchange>,
    args: Seq<Seq<char>>,
    after: Seq<Exchange>,
    r: OutcomeView,
) -> bool {
    match parsed_vlan(args) {
        Err(e) => after == before && r == fails(e),
        Ok(v) => {
            &&& asked(
                before,
                vlan_command(iface_of(args), v.vlan_id, drop_word(v.drop), v.inner_vlan, v.rate),
                after,
            )
            &&& r == vlan_add_outcome(v, success_text(answer(after)))
        },
    }
}

pub fn acl_vlan_add<D: Daemon>(d: &mut Channel<D>, args: &Vec<String>) -> (r: Outcome)
    ensures
        final(d).daemon() == old(d).daemon(),
        vlan_add_ran(old(d).log(), texts(args@), final(d).log(), r@),
{
    let iface = iface_or_default(args);
    match parse_vlan(args) {
        Err(e) => fail(e),
        Ok(v) => {
            let reply = send_vlan_add(
                d,
                iface.as_str(),
                v.vlan_id,
                word_of_drop(v.drop),
                v.inner_vlan,
                v.rate,
            );
            show_vlan_added(v, reply)
        },
    }
}

pub open spec fn vlan_del_ran(
    before: Seq<Exchange>,
    args: Seq<Seq<char>>,
    after: Seq<Exchange>,
    r: OutcomeView,
) -> bool {
    match parsed_id(args, "--id <n> required (see 'acl vlan list')"@) {
        Err(e) => after == before && r == fails(e),
        Ok(id) => {
            &&& asked(before, CommandView::AclVlanDel { iface: iface_of(args), id }, after)
            &&& r == del_outcome(
                success_text(answer(after)),
                "Failed to delete VLAN rule: "@,
                "deleted vlan rule id="@,
                id,
            )
        },
    }
}

pub fn acl_vlan_del<D: Daemon>(d: &mut Channel<D>, args: &Vec<String>) -> (r: Outcome)
    ensures
        final(d).daemon() == old(d).daemon(),
        vlan_del_ran(old(d).log(), texts(args@), final(d).log(), r@),
{
    let iface = iface_or_default(args);
    match read_id(args, "--id <n> required (see 'acl vlan list')") {
        Err(e) => fail(e),
        Ok(id) => {
            let reply = send_vlan_del(d, iface.as_str(), id);
            show_deleted(reply, "Failed to delete VLAN rule: ", "deleted vlan rule id=", id)
        },
    }
}

pub open spec fn vlan_cmd_ran(
    before: Seq<Exchange>,
    args: Seq<Seq<char>>,
    after: Seq<Exchange>,
    r: OutcomeView,
) -> bool {
    if args.len() == 0 {
        after == before && r == fails("usage: ebpf-ctl acl vlan <list|add|del> ..."@)
    } else if args[0] == "list"@ {
        vlan_list_ran(before, args.skip(1), after, r)
    } else if args[0] == "add"@ {
        vlan_add_ran(before, args.skip(1), after, r)
    } else if args[0] == "del"@ {
        vlan_del_ran(before, args.skip(1), after, r)
    } else {
        after == before && r == fails("unknown acl vlan subcommand: '"@ + args[0] + "'"@)
    }
}

fn unknown(prefix: &str, name: &str) -> (r: Outcome)
    ensures
        r@ == fails(prefix@ + name@ + "'"@),
{
    let mut m = prefix.to_owned();
    m.append(name);
    m.append("'");
    fail(m)
}

pub fn acl_vlan_cmd<D: Daemon>(d: &mut Channel<D>, args: &Vec<String>) -> (r: Outcome)
    ensures
        final(d).daemon() == old(d).daemon(),
        vlan_cmd_ran(old(d).log(), texts(args@), final(d).log(), r@),
{
    if args.len() == 0 {
        return fail_str("usage: ebpf-ctl acl vlan <list|add|del> ...");
    }
    assert(texts(args@)[0] == args@[0]@);
    let rest = tail(args);
    let name = args[0].as_str();
    if same(name, "list") {
        acl_vlan_list(d, &rest)
    } else if same(name, "add") {
        acl_vlan_add(d, &rest)
    } else if same(name, "del") {
        acl_vlan_del(d, &rest)
    } else {
        unknown("unknown acl vlan subcommand: '", name)
    }
}

pub open spec fn acl_cmd_ran(
    before: Seq<Exchange>,
    args: Seq<Seq<char>>,
    after: Seq<Exchange>,
    r: OutcomeView,
) -> bool {
    if args.len() == 0 {
        after == before && r == fails("usage: ebpf-ctl acl <list|add|del|vlan> ..."@)
    } else if args[0] == "list"@ {
        acl_list_ran(before, args.skip(1), after, r)
    } else if args[0] == "add"@ {
        acl_add_ran(before, args.skip(1), after, r)
    } else if args[0] == "del"@ {
        acl_del_ran(before, args.skip(1), after, r)
    } else if args[0] == "vlan"@ {
        vlan_cmd_ran(before, args.skip(1), after, r)
    } else {
        after == before && r == fails("unknown acl subcommand: '"@ + args[0] + "'"@)
    }
}

pub fn acl_cmd<D: Daemon>(d: &mut Channel<D>, args: &Vec<String>) -> (r: Outcome)
    ensures
        final(d).daemon() == old(d).daemon(),
        acl_cmd_ran(old(d).log(), texts(args@), final(d).log(), r@),
{
    if args.len() == 0 {
        return fail_str("usage: ebpf-ctl acl <list|add|del|vlan> ...");
    }
    assert(texts(args@)[0] == args@[0]@);
    let rest = tail(args);
    let name = args[0].as_str();
    if same(name, "list") {
        acl_list(d, &rest)
    } else if same(name, "add") {
        acl_add(d, &rest)
    } else if same(name, "del") {
        acl_del(d, &rest)
    } else if same(name, "vlan") {
        acl_vlan_cmd(d, &rest)
    } else {
        unknown("unknown acl subcommand: '", name)
    }
}

} // verus!
