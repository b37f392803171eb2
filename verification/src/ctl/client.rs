//! Commands to the daemon and what its answers mean.
use vstd::prelude::*;

use crate::acl_key::{
    group_bytes, zeros, AclAddr, AclRule, AddrView, Ipv4, Ipv6, PortSpec, Proto, RuleView,
};
use crate::daemon::maps::{counter_id_from_u32, counter_of, port_of};
use crate::maps::{AclAction, CounterId};
use crate::protocol::{Command, CommandView, CounterData, Response, ResponseView};
use crate::text::{
    after_prefix, join, join_texts, opt_text, parse_number, read_number, same, split, split_text,
    split_words, starts, texts, told, words,
};

verus! {

/// The daemon at the other end of the socket. Nothing is assumed of its
/// answers.
pub trait Daemon {
    /// Sends a command; an error where no answer came.
    fn send(&self, command: Command) -> Result<Response, String>;
}

/// A command and its answer.
#[verifier::ext_equal]
pub struct Exchange {
    pub command: CommandView,
    pub reply: Result<ResponseView, Seq<char>>,
}

/// The way to the daemon. All commands go through here, and are kept.
pub struct Channel<'a, D: Daemon> {
    daemon: &'a D,
    log: Ghost<Seq<Exchange>>,
}

impl<'a, D: Daemon> Channel<'a, D> {
    /// All that was sent so far, with the answers.
    pub closed spec fn log(self) -> Seq<Exchange> {
        self.log@
    }

    /// The other end.
    pub closed spec fn daemon(self) -> D {
        *self.daemon
    }

    pub fn new(daemon: &'a D) -> (r: Self)
        ensures
            r.log() == Seq::<Exchange>::empty(),
            r.daemon() == *daemon,
    {
        Channel { daemon, log: Ghost(Seq::empty()) }
    }

    /// Sends a command once.
    pub fn send(&mut self, command: Command) -> (r: Result<Response, String>)
        ensures
            call_ensures(D::send, (&old(self).daemon(), command), r),
            final(self).daemon() == old(self).daemon(),
            final(self).log() == old(self).log().push(
                Exchange { command: command@, reply: told(r) },
            ),
    {
        let ghost sent = command@;
        let r = self.daemon.send(command);
        self.log = Ghost(self.log@.push(Exchange { command: sent, reply: told(r) }));
        r
    }
}

/// Between the two logs the command was sent, once and with nothing else.
pub open spec fn asked(before: Seq<Exchange>, command: CommandView, after: Seq<Exchange>) -> bool {
    &&& after.len() == before.len() + 1
    &&& after.drop_last() == before
    &&& after.last().command == command
}

/// The answer to the command that was sent last.
pub open spec fn answer(log: Seq<Exchange>) -> Result<ResponseView, Seq<char>> {
    log.last().reply
}

fn send<D: Daemon>(d: &mut Channel<D>, command: Command) -> (r: Result<Response, String>)
    ensures
        final(d).daemon() == old(d).daemon(),
        asked(old(d).log(), command@, final(d).log()),
        answer(final(d).log()) == told(r),
{
    let ghost before = d.log();
    let r = d.send(command);
    assert(d.log().drop_last() =~= before);
    r
}

pub open spec fn unexpected() -> Seq<char> {
    "Unexpected response type"@
}

/// The message of an answer that is not of the kind asked for.
pub open spec fn refusal(reply: Result<ResponseView, Seq<char>>) -> Seq<char> {
    match reply {
        Err(e) => e,
        Ok(ResponseView::Error(m)) => m,
        Ok(_) => unexpected(),
    }
}

fn refusal_text(reply: Result<Response, String>) -> (r: String)
    ensures
        r@ == refusal(told(reply)),
{
    match reply {
        Err(e) => e,
        Ok(Response::Error(m)) => m,
        Ok(_) => "Unexpected response type".to_string(),
    }
}

// ---- Reading the ACL list ----

/// An L4 ACL entry for display.
#[derive(Debug)]
pub struct AclEntry {
    pub id: usize,
    pub prefix_len: u32,
    pub family: u8,
    pub ip_proto: u8,
    pub src_port: u16,
    pub dst_port: u16,
    pub action: String,
    pub rule: AclRule,
}

#[verifier::ext_equal]
pub struct EntryView {
    pub id: int,
    pub prefix_len: u32,
    pub family: u8,
    pub ip_proto: u8,
    pub src_port: u16,
    pub dst_port: u16,
    pub action: Seq<char>,
    pub rule: RuleView,
}

impl View for AclEntry {
    type V = EntryView;

    open spec fn view(&self) -> EntryView {
        EntryView {
            id: self.id as int,
            prefix_len: self.prefix_len,
            family: self.family,
            ip_proto: self.ip_proto,
            src_port: self.src_port,
            dst_port: self.dst_port,
            action: self.action@,
            rule: self.rule@,
        }
    }
}

/// The number a text writes, or another where it writes none.
pub open spec fn number_or(s: Seq<char>, max: int, other: int) -> int {
    match parse_number(s, 10, max) {
        Some(n) => n,
        None => other,
    }
}

fn read_or(s: &str, max: u64, other: u64) -> (r: u64)
    requires
        other <= max,
    ensures
        r == number_or(s@, max as int, other as int),
        r <= max,
{
    match read_number(s, 10, max) {
        Some(n) => n,
        None => other,
    }
}

/// The octets among the parts; parts that are none are passed over.
pub open spec fn octets(parts: Seq<Seq<char>>) -> Seq<u8>
    decreases parts.len(),
{
    if parts.len() == 0 {
        Seq::empty()
    } else {
        match parse_number(parts.last(), 10, 255) {
            Some(n) => octets(parts.drop_last()).push(n as u8),
            None => octets(parts.drop_last()),
        }
    }
}

/// The groups among the parts; parts that are none are passed over.
pub open spec fn hex_groups(parts: Seq<Seq<char>>) -> Seq<u16>
    decreases parts.len(),
{
    if parts.len() == 0 {
        Seq::empty()
    } else {
        match parse_number(parts.last(), 16, 65535) {
            Some(n) => hex_groups(parts.drop_last()).push(n as u16),
            None => hex_groups(parts.drop_last()),
        }
    }
}

/// Bytes filled up with zeros to 16.
pub open spec fn filled(b: Seq<u8>) -> Seq<u8> {
    b + zeros((16 - b.len()) as nat)
}

/// Four octets behind a prefix of twelve bytes; with any other number of
/// octets, zeros.
pub open spec fn octet_bytes(prefix: Seq<u8>, o: Seq<u8>) -> Seq<u8> {
    if o.len() == 4 {
        prefix + o
    } else {
        zeros(16)
    }
}

/// The first eight groups.
pub open spec fn eight(g: Seq<u16>) -> Seq<u16> {
    if g.len() > 8 {
        g.take(8)
    } else {
        g
    }
}

/// The address in a line, without a check of its form.
pub open spec fn ip_bytes(s: Seq<char>, family: u8) -> Seq<u8> {
    if family == 4 {
        if starts(s, "::ffff:"@) {
            octet_bytes(
                zeros(10) + seq![0xffu8, 0xff],
                octets(split(s.skip("::ffff:"@.len() as int), '.')),
            )
        } else {
            octet_bytes(zeros(12), octets(split(s, '.')))
        }
    } else {
        filled(group_bytes(eight(hex_groups(split(s, ':')))))
    }
}

fn read_octets(parts: &Vec<String>) -> (r: Vec<u8>)
    ensures
        r@ == octets(texts(parts@)),
{
    let mut out: Vec<u8> = Vec::new();
    let ghost all = texts(parts@);
    let mut i: usize = 0;
    assert(all.take(0) =~= Seq::empty());
    while i < parts.len()
        invariant
            i <= parts@.len(),
            all == texts(parts@),
            out@ == octets(all.take(i as int)),
        decreases parts@.len() - i,
    {
        assert(all.take(i + 1).drop_last() =~= all.take(i as int));
        assert(all.take(i + 1).last() == parts@[i as int]@);
        if let Some(n) = read_number(parts[i].as_str(), 10, 255) {
            out.push(n as u8);
        }
        i += 1;
    }
    assert(all.take(i as int) =~= all);
    out
}

fn read_hex_groups(parts: &Vec<String>) -> (r: Vec<u16>)
    ensures
        r@ == hex_groups(texts(parts@)),
{
    let mut out: Vec<u16> = Vec::new();
    let ghost all = texts(parts@);
    let mut i: usize = 0;
    assert(all.take(0) =~= Seq::empty());
    while i < parts.len()
        invariant
            i <= parts@.len(),
            all == texts(parts@),
            out@ == hex_groups(all.take(i as int)),
        decreases parts@.len() - i,
    {
        assert(all.take(i + 1).drop_last() =~= all.take(i as int));
        assert(all.take(i + 1).last() == parts@[i as int]@);
        if let Some(n) = read_number(parts[i].as_str(), 16, 65535) {
            out.push(n as u16);
        }
        i += 1;
    }
    assert(all.take(i as int) =~= all);
    out
}

fn read_dotted(s: &str, mapped: bool) -> (r: [u8; 16])
    ensures
        r@ == octet_bytes(
            if mapped {
                zeros(10) + seq![0xffu8, 0xff]
            } else {
                zeros(12)
            },
            octets(split(s@, '.')),
        ),
{
    let mut addr = [0u8; 16];
    let parts = split_text(s, '.');
    let o = read_octets(&parts);
    if o.len() == 4 {
        if mapped {
            addr[10] = 0xff;
            addr[11] = 0xff;
        }
        addr[12] = o[0];
        addr[13] = o[1];
        addr[14] = o[2];
        addr[15] = o[3];
    }
    assert(addr@ =~= octet_bytes(
        if mapped {
            zeros(10) + seq![0xffu8, 0xff]
        } else {
            zeros(12)
        },
        o@,
    ));
    addr
}

/// The address in a line.
pub fn parse_ip(s: &str, family: u8) -> (r: [u8; 16])
    ensures
        r@ == ip_bytes(s@, family),
{
    if family == 4 {
        return match after_prefix(s, "::ffff:") {
            Some(rest) => read_dotted(rest.as_str(), true),
            None => read_dotted(s, false),
        };
    }
    let parts = split_text(s, ':');
    let g = read_hex_groups(&parts);
    let mut addr = [0u8; 16];
    let mut i: usize = 0;
    let ghost bytes = filled(group_bytes(eight(g@)));
    while i < g.len() && i < 8
        invariant
            i <= g@.len(),
            i <= 8,
            bytes == filled(group_bytes(eight(g@))),
            forall|j: int| 0 <= j < 2 * i ==> #[trigger] addr@[j] == bytes[j],
            forall|j: int| 2 * i <= j < 16 ==> #[trigger] addr@[j] == 0,
        decreases g@.len() - i,
    {
        addr[2 * i] = (g[i] / 256) as u8;
        addr[2 * i + 1] = (g[i] % 256) as u8;
        i += 1;
    }
    assert(addr@ =~= bytes);
    addr
}

/// The number of a protocol's name; 0 for a name that is none.
pub open spec fn proto_number(s: Seq<char>) -> u8 {
    if s == "tcp"@ {
        6
    } else if s == "udp"@ {
        17
    } else if s == "icmp"@ {
        1
    } else if s == "icmpv6"@ {
        58
    } else {
        0
    }
}

/// The protocol of a number, TCP where it has none.
pub open spec fn proto_or_tcp(n: u8) -> Proto {
    match n {
        6 => Proto::Tcp,
        17 => Proto::Udp,
        1 => Proto::Icmp,
        58 => Proto::Icmpv6,
        _ => Proto::Tcp,
    }
}

/// The action of a name, allowing where it is none.
pub open spec fn action_named(s: Seq<char>) -> AclAction {
    if s == "Drop"@ {
        AclAction::Drop
    } else if s == "Redirect"@ {
        AclAction::Redirect
    } else if s == "Inspect"@ {
        AclAction::Inspect
    } else {
        AclAction::Allow
    }
}

/// The port in a line.
pub open spec fn port_in(s: Seq<char>) -> u16 {
    if s == "any"@ {
        0
    } else {
        number_or(s, 65535, 0) as u16
    }
}

/// The rate in a line.
pub open spec fn rate_in(s: Seq<char>) -> u32 {
    if s == "-"@ {
        0
    } else {
        number_or(s, u32::MAX as int, 0) as u32
    }
}

/// The address of a rule in a line.
pub open spec fn line_addr(s: Seq<char>, family: u8) -> AddrView {
    if family == 4 {
        AddrView { v6: false, addr: ip_bytes(s, family).subrange(12, 16), prefix: None }
    } else {
        AddrView { v6: true, addr: ip_bytes(s, family), prefix: None }
    }
}

/// The entry in the words of a line, the `i`-th of the list.
pub open spec fn words_entry(p: Seq<Seq<char>>, i: int) -> EntryView {
    let family = number_or(p[2], 255, 4) as u8;
    let ip_proto = proto_number(p[5]);
    let src_port = port_in(p[6]);
    let dst_port = port_in(p[7]);
    let action = join(p.skip(9), " "@);
    EntryView {
        id: number_or(p[0], usize::MAX as int, i),
        prefix_len: number_or(p[1], u32::MAX as int, 0) as u32,
        family,
        ip_proto,
        src_port,
        dst_port,
        action,
        rule: RuleView {
            action: action_named(action),
            src: line_addr(p[3], family),
            dst: line_addr(p[4], family),
            proto: proto_or_tcp(ip_proto),
            sport: port_of(src_port),
            dport: port_of(dst_port),
            tcp_flags: 0,
            rate: rate_in(p[8]),
        },
    }
}

/// The entry in a line; a line of fewer than ten words has none.
pub open spec fn line_entry(line: Seq<char>, i: int) -> Option<EntryView> {
    if words(line).len() < 10 {
        None
    } else {
        Some(words_entry(words(line), i))
    }
}

/// The entries in the lines.
pub open spec fn line_entries(lines: Seq<Seq<char>>) -> Seq<EntryView>
    decreases lines.len(),
{
    if lines.len() == 0 {
        Seq::empty()
    } else {
        match line_entry(lines.last(), lines.len() - 1) {
            Some(e) => line_entries(lines.drop_last()).push(e),
            None => line_entries(lines.drop_last()),
        }
    }
}

pub open spec fn entry_views(v: Seq<AclEntry>) -> Seq<EntryView> {
    Seq::new(v.len(), |i: int| v[i]@)
}

fn number_of_proto(s: &str) -> (r: u8)
    ensures
        r == proto_number(s@),
{
    if same(s, "tcp") {
        6
    } else if same(s, "udp") {
        17
    } else if same(s, "icmp") {
        1
    } else if same(s, "icmpv6") {
        58
    } else {
        0
    }
}

fn proto_of_number(n: u8) -> (r: Proto)
    ensures
        r == proto_or_tcp(n),
{
    match n {
        6 => Proto::Tcp,
        17 => Proto::Udp,
        1 => Proto::Icmp,
        58 => Proto::Icmpv6,
        _ => Proto::Tcp,
    }
}

fn action_of_name(s: &str) -> (r: AclAction)
    ensures
        r == action_named(s@),
{
    if same(s, "Drop") {
        AclAction::Drop
    } else if same(s, "Redirect") {
        AclAction::Redirect
    } else if same(s, "Inspect") {
        AclAction::Inspect
    } else {
        AclAction::Allow
    }
}

fn read_port(s: &str) -> (r: u16)
    ensures
        r == port_in(s@),
{
    if same(s, "any") {
        0
    } else {
        read_or(s, 65535, 0) as u16
    }
}

fn read_rate(s: &str) -> (r: u32)
    ensures
        r == rate_in(s@),
{
    if same(s, "-") {
        0
    } else {
        read_or(s, 0xffff_ffff, 0) as u32
    }
}

fn read_addr(s: &str, family: u8) -> (r: AclAddr)
    ensures
        r@ == line_addr(s@, family),
{
    let addr = parse_ip(s, family);
    if family == 4 {
        AclAddr::V4(Ipv4::from_mapped(&addr))
    } else {
        AclAddr::V6(Ipv6::from_raw(addr, None))
    }
}

fn exact_or_any(p: u16) -> (r: PortSpec)
    ensures
        r == port_of(p),
{
    if p == 0 {
        PortSpec::Any
    } else {
        PortSpec::Exact(p)
    }
}

fn read_entry(p: &Vec<String>, i: usize) -> (r: AclEntry)
    requires
        p@.len() >= 10,
    ensures
        r@ == words_entry(texts(p@), i as int),
{
    let ghost w = texts(p@);
    assert(forall|j: int| 0 <= j < p@.len() ==> #[trigger] w[j] == p@[j]@);
    let id: usize = read_or(p[0].as_str(), usize::MAX as u64, i as u64) as usize;
    let prefix_len: u32 = read_or(p[1].as_str(), 0xffff_ffff, 0) as u32;
    let family: u8 = read_or(p[2].as_str(), 255, 4) as u8;
    let src = read_addr(p[3].as_str(), family);
    let dst = read_addr(p[4].as_str(), family);
    let ip_proto: u8 = number_of_proto(p[5].as_str());
    let src_port: u16 = read_port(p[6].as_str());
    let dst_port: u16 = read_port(p[7].as_str());
    let rate: u32 = read_rate(p[8].as_str());
    let action = join_texts(p, 9, " ");
    assert(texts(p@.skip(9)) =~= w.skip(9));
    let rule = AclRule {
        action: action_of_name(action.as_str()),
        src,
        dst,
        proto: proto_of_number(ip_proto),
        sport: exact_or_any(src_port),
        dport: exact_or_any(dst_port),
        tcp_flags: 0,
        rate,
    };
    AclEntry { id, prefix_len, family, ip_proto, src_port, dst_port, action, rule }
}

/// The entries in the lines of an ACL list.
pub fn parse_acl_lines(lines: &Vec<String>) -> (r: Vec<AclEntry>)
    ensures
        entry_views(r@) == line_entries(texts(lines@)),
{
    let mut out: Vec<AclEntry> = Vec::new();
    let ghost all = texts(lines@);
    let mut i: usize = 0;
    assert(all.take(0) =~= Seq::empty());
    assert(entry_views(out@) =~= Seq::empty());
    while i < lines.len()
        invariant
            i <= lines@.len(),
            all == texts(lines@),
            entry_views(out@) == line_entries(all.take(i as int)),
        decreases lines@.len() - i,
    {
        assert(all.take(i + 1).drop_last() =~= all.take(i as int));
        assert(all.take(i + 1).last() == lines@[i as int]@);
        let parts = split_words(lines[i].as_str());
        if parts.len() >= 10 {
            let e = read_entry(&parts, i);
            let ghost before = out@;
            out.push(e);
            assert(entry_views(out@) =~= entry_views(before).push(e@));
        }
        i += 1;
    }
    assert(all.take(i as int) =~= all);
    out
}

/// What an answer to a list command holds.
pub open spec fn listed_entries(reply: Result<ResponseView, Seq<char>>) -> Result<
    Seq<EntryView>,
    Seq<char>,
> {
    match reply {
        Ok(ResponseView::ListResult(lines)) => Ok(line_entries(lines)),
        _ => Err(refusal(reply)),
    }
}

pub open spec fn entries_result(r: Result<Vec<AclEntry>, String>) -> Result<
    Seq<EntryView>,
    Seq<char>,
> {
    match r {
        Ok(v) => Ok(entry_views(v@)),
        Err(e) => Err(e@),
    }
}

/// The entries in an answer.
pub fn entries_from(reply: Result<Response, String>) -> (r: Result<Vec<AclEntry>, String>)
    ensures
        entries_result(r) == listed_entries(told(reply)),
{
    match reply {
        Ok(Response::ListResult(lines)) => Ok(parse_acl_lines(&lines)),
        other => Err(refusal_text(other)),
    }
}

/// Asks for the L4 ACL.
pub fn acl_list<D: Daemon>(d: &mut Channel<D>, iface: &str) -> (r: Result<Vec<AclEntry>, String>)
    ensures
        final(d).daemon() == old(d).daemon(),
        asked(old(d).log(), CommandView::AclList { iface: iface@ }, final(d).log()),
        entries_result(r) == listed_entries(answer(final(d).log())),
{
    let reply = send(d, Command::AclList { iface: iface.to_owned() });
    entries_from(reply)
}

// ---- Other answers ----

/// The text of a success, which is shown.
pub open spec fn success_text(reply: Result<ResponseView, Seq<char>>) -> Result<
    Seq<char>,
    Seq<char>,
> {
    match reply {
        Ok(ResponseView::Success(m)) => Ok(m),
        _ => Err(refusal(reply)),
    }
}

/// The text of a success.
pub fn success_from(reply: Result<Response, String>) -> (r: Result<String, String>)
    ensures
        told(r) == success_text(told(reply)),
{
    match reply {
        Ok(Response::Success(m)) => Ok(m),
        other => Err(refusal_text(other)),
    }
}

/// The number in an answer.
pub open spec fn count_in(reply: Result<ResponseView, Seq<char>>) -> Result<usize, Seq<char>> {
    match reply {
        Ok(ResponseView::CountResult(n)) => Ok(n),
        _ => Err(refusal(reply)),
    }
}

/// A value, or a message.
pub open spec fn plain<T>(r: Result<T, String>) -> Result<T, Seq<char>> {
    match r {
        Ok(t) => Ok(t),
        Err(e) => Err(e@),
    }
}

/// The number in an answer.
pub fn count_from(reply: Result<Response, String>) -> (r: Result<usize, String>)
    ensures
        plain(r) == count_in(told(reply)),
{
    match reply {
        Ok(Response::CountResult(n)) => Ok(n),
        other => Err(refusal_text(other)),
    }
}

/// The mask in an answer.
pub open spec fn mask_in(reply: Result<ResponseView, Seq<char>>) -> Result<u64, Seq<char>> {
    match reply {
        Ok(ResponseView::MaskResult(m)) => Ok(m),
        _ => Err(refusal(reply)),
    }
}

/// The mask in an answer.
pub fn mask_from(reply: Result<Response, String>) -> (r: Result<u64, String>)
    ensures
        plain(r) == mask_in(told(reply)),
{
    match reply {
        Ok(Response::MaskResult(m)) => Ok(m),
        other => Err(refusal_text(other)),
    }
}

/// The attachment in an answer.
pub open spec fn attachment_in(reply: Result<ResponseView, Seq<char>>) -> Result<
    (bool, Option<u32>),
    Seq<char>,
> {
    match reply {
        Ok(ResponseView::AttachmentResult { attached, prog_id }) => Ok((attached, prog_id)),
        _ => Err(refusal(reply)),
    }
}

/// The attachment in an answer.
pub fn attachment_from(reply: Result<Response, String>) -> (r: Result<
    (bool, Option<u32>),
    String,
>)
    ensures
        plain(r) == attachment_in(told(reply)),
{
    match reply {
        Ok(Response::AttachmentResult { attached, prog_id }) => Ok((attached, prog_id)),
        other => Err(refusal_text(other)),
    }
}

/// The lines in an answer.
pub open spec fn lines_in(reply: Result<ResponseView, Seq<char>>) -> Result<
    Seq<Seq<char>>,
    Seq<char>,
> {
    match reply {
        Ok(ResponseView::ListResult(v)) => Ok(v),
        _ => Err(refusal(reply)),
    }
}

pub open spec fn lines_result(r: Result<Vec<String>, String>) -> Result<Seq<Seq<char>>, Seq<char>> {
    match r {
        Ok(v) => Ok(texts(v@)),
        Err(e) => Err(e@),
    }
}

/// The lines in an answer.
pub fn lines_from(reply: Result<Response, String>) -> (r: Result<Vec<String>, String>)
    ensures
        lines_result(r) == lines_in(told(reply)),
{
    match reply {
        Ok(Response::ListResult(v)) => Ok(v),
        other => Err(refusal_text(other)),
    }
}

/// The counters in an answer, those of an unknown number as `Unknown`.
pub open spec fn counter_pairs(v: Seq<crate::protocol::CounterView>) -> Seq<(CounterId, u64)> {
    Seq::new(
        v.len(),
        |i: int|
            (
                match counter_of(v[i].id) {
                    Some(c) => c,
                    None => CounterId::Unknown,
                },
                v[i].value,
            ),
    )
}

pub open spec fn counters_in(reply: Result<ResponseView, Seq<char>>) -> Result<
    Seq<(CounterId, u64)>,
    Seq<char>,
> {
    match reply {
        Ok(ResponseView::CounterResult(v)) => Ok(counter_pairs(v)),
        _ => Err(refusal(reply)),
    }
}

pub open spec fn pairs_result(r: Result<Vec<(CounterId, u64)>, String>) -> Result<
    Seq<(CounterId, u64)>,
    Seq<char>,
> {
    match r {
        Ok(v) => Ok(v@),
        Err(e) => Err(e@),
    }
}

fn read_counters(v: &Vec<CounterData>) -> (r: Vec<(CounterId, u64)>)
    ensures
        r@ == counter_pairs(crate::protocol::counter_views(v@)),
{
    let mut out: Vec<(CounterId, u64)> = Vec::new();
    let ghost all = counter_pairs(crate::protocol::counter_views(v@));
    let mut i: usize = 0;
    while i < v.len()
        invariant
            i <= v@.len(),
            all == counter_pairs(crate::protocol::counter_views(v@)),
            out@ == all.take(i as int),
        decreases v@.len() - i,
    {
        let cid = match counter_id_from_u32(v[i].id) {
            Some(c) => c,
            None => CounterId::Unknown,
        };
        out.push((cid, v[i].value));
        assert(all.take(i + 1) =~= all.take(i as int).push(all[i as int]));
        i += 1;
    }
    assert(all.take(i as int) =~= all);
    out
}

/// The counters in an answer.
pub fn counters_from(reply: Result<Response, String>) -> (r: Result<
    Vec<(CounterId, u64)>,
    String,
>)
    ensures
        pairs_result(r) == counters_in(told(reply)),
{
    match reply {
        Ok(Response::CounterResult(v)) => Ok(read_counters(&v)),
        other => Err(refusal_text(other)),
    }
}

// ---- Commands ----

/// The command to add a rule.
pub open spec fn add_command(
    iface: Seq<char>,
    action: Seq<char>,
    src: Seq<char>,
    dst: Seq<char>,
    proto: Option<Seq<char>>,
    rate: Option<u32>,
) -> CommandView {
    CommandView::AclAdd { iface, action, src, dst, proto, rate }
}

/// Asks for a rule to be added; the daemon's text is returned.
pub fn acl_add<D: Daemon>(
    d: &mut Channel<D>,
    iface: &str,
    action: &str,
    src: &str,
    dst: &str,
    proto: Option<&str>,
    rate: Option<u32>,
) -> (r: Result<String, String>)
    ensures
        final(d).daemon() == old(d).daemon(),
        asked(old(d).log(), add_command(
                    iface@,
                    action@,
                    src@,
                    dst@,
                    crate::daemon::maps::opt_str(proto),
                    rate,
                ), final(d).log()),
        told(r) == success_text(answer(final(d).log())),
{
    let p = match proto {
        Some(s) => Some(s.to_owned()),
        None => None,
    };
    assert(opt_text(p) == crate::daemon::maps::opt_str(proto));
    let reply = send(
        d,
        Command::AclAdd {
            iface: iface.to_owned(),
            action: action.to_owned(),
            src: src.to_owned(),
            dst: dst.to_owned(),
            proto: p,
            rate,
        },
    );
    success_from(reply)
}

/// Asks for a rule to be deleted.
pub fn acl_del<D: Daemon>(d: &mut Channel<D>, iface: &str, id: usize) -> (r: Result<String, String>)
    ensures
        final(d).daemon() == old(d).daemon(),
        asked(old(d).log(), CommandView::AclDel { iface: iface@, id }, final(d).log()),
        told(r) == success_text(answer(final(d).log())),
{
    let reply = send(d, Command::AclDel { iface: iface.to_owned(), id });
    success_from(reply)
}

/// Asks for the counters.
pub fn counters<D: Daemon>(
    d: &mut Channel<D>,
    iface: &str,
) -> (r: Result<Vec<(CounterId, u64)>, String>)
    ensures
        final(d).daemon() == old(d).daemon(),
        asked(old(d).log(), CommandView::CountersShow { iface: iface@ }, final(d).log()),
        pairs_result(r) == counters_in(answer(final(d).log())),
{
    let reply = send(d, Command::CountersShow { iface: iface.to_owned() });
    counters_from(reply)
}

/// Asks for the number of tracked connections.
pub fn conntrack_count<D: Daemon>(d: &mut Channel<D>, iface: &str) -> (r: Result<usize, String>)
    ensures
        final(d).daemon() == old(d).daemon(),
        asked(old(d).log(), CommandView::ConntrackShow { iface: iface@ }, final(d).log()),
        plain(r) == count_in(answer(final(d).log())),
{
    let reply = send(d, Command::ConntrackShow { iface: iface.to_owned() });
    count_from(reply)
}

/// Asks for the number of token buckets.
pub fn rate_limit_count<D: Daemon>(d: &mut Channel<D>, iface: &str) -> (r: Result<usize, String>)
    ensures
        final(d).daemon() == old(d).daemon(),
        asked(old(d).log(), CommandView::RateLimitShow { iface: iface@ }, final(d).log()),
        plain(r) == count_in(answer(final(d).log())),
{
    let reply = send(d, Command::RateLimitShow { iface: iface.to_owned() });
    count_from(reply)
}

/// Asks whether a program is attached.
pub fn check_xdp_attached<D: Daemon>(d: &mut Channel<D>, iface: &str) -> (r: Result<
    (bool, Option<u32>),
    String,
>)
    ensures
        final(d).daemon() == old(d).daemon(),
        asked(old(d).log(), CommandView::CheckXdpAttached { iface: iface@ }, final(d).log()),
        plain(r) == attachment_in(answer(final(d).log())),
{
    let reply = send(d, Command::CheckXdpAttached { iface: iface.to_owned() });
    attachment_from(reply)
}

/// Asks for the VLAN ACL.
pub fn acl_vlan_list<D: Daemon>(d: &mut Channel<D>, iface: &str) -> (r: Result<Vec<String>, String>)
    ensures
        final(d).daemon() == old(d).daemon(),
        asked(old(d).log(), CommandView::AclVlanList { iface: iface@ }, final(d).log()),
        lines_result(r) == lines_in(answer(final(d).log())),
{
    let reply = send(d, Command::AclVlanList { iface: iface.to_owned() });
    lines_from(reply)
}

/// The command to add a VLAN rule.
pub open spec fn vlan_command(
    iface: Seq<char>,
    vlan_id: u16,
    action: Seq<char>,
    inner_vlan: Option<u16>,
    rate: Option<u32>,
) -> CommandView {
    CommandView::AclVlanAdd { iface, vlan_id, action, inner_vlan, rate }
}

/// Asks for a VLAN rule to be added.
pub fn acl_vlan_add<D: Daemon>(
    d: &mut Channel<D>,
    iface: &str,
    vlan_id: u16,
    action: &str,
    inner_vlan: Option<u16>,
    rate: Option<u32>,
) -> (r: Result<String, String>)
    ensures
        final(d).daemon() == old(d).daemon(),
        asked(
            old(d).log(),
            vlan_command(iface@, vlan_id, action@, inner_vlan, rate),
            final(d).log(),
        ),
        told(r) == success_text(answer(final(d).log())),
{
    let reply = send(
        d,
        Command::AclVlanAdd {
            iface: iface.to_owned(),
            vlan_id,
            action: action.to_owned(),
            inner_vlan,
            rate,
        },
    );
    success_from(reply)
}

/// Asks for a VLAN rule to be deleted.
pub fn acl_vlan_del<D: Daemon>(
    d: &mut Channel<D>,
    iface: &str,
    id: usize,
) -> (r: Result<String, String>)
    ensures
        final(d).daemon() == old(d).daemon(),
        asked(old(d).log(), CommandView::AclVlanDel { iface: iface@, id }, final(d).log()),
        told(r) == success_text(answer(final(d).log())),
{
    let reply = send(d, Command::AclVlanDel { iface: iface.to_owned(), id });
    success_from(reply)
}

/// Asks for the event mask.
pub fn event_mask_get<D: Daemon>(d: &mut Channel<D>) -> (r: Result<u64, String>)
    ensures
        final(d).daemon() == old(d).daemon(),
        asked(old(d).log(), CommandView::EventMaskGet, final(d).log()),
        plain(r) == mask_in(answer(final(d).log())),
{
    let reply = send(d, Command::EventMaskGet);
    mask_from(reply)
}

/// Sets the event mask.
pub fn event_mask_set<D: Daemon>(d: &mut Channel<D>, mask: u64) -> (r: Result<String, String>)
    ensures
        final(d).daemon() == old(d).daemon(),
        asked(old(d).log(), CommandView::EventMaskSet { mask }, final(d).log()),
        told(r) == success_text(answer(final(d).log())),
{
    let reply = send(d, Command::EventMaskSet { mask });
    success_from(reply)
}

/// Asks for a configuration to be loaded.
pub fn config_reload<D: Daemon>(
    d: &mut Channel<D>,
    path: Option<&str>,
) -> (r: Result<String, String>)
    ensures
        final(d).daemon() == old(d).daemon(),
        asked(
            old(d).log(),
            CommandView::ConfigReload { path: crate::daemon::maps::opt_str(path) },
            final(d).log(),
        ),
        told(r) == success_text(answer(final(d).log())),
{
    let p = match path {
        Some(s) => Some(s.to_owned()),
        None => None,
    };
    assert(opt_text(p) == crate::daemon::maps::opt_str(path));
    let reply = send(d, Command::ConfigReload { path: p });
    success_from(reply)
}

} // verus!
