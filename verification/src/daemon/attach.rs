//! Whether an XDP program is attached to an interface.
//!
//! Looked for, in this order: an XDP link of the interface; an XDP program
//! that names the interface; for older ways of attaching, which leave no such
//! trace, the XDP program the daemon was told of or one of its own network
//! namespace; and any XDP program at all.
use vstd::prelude::*;
use vstd::string::StringExecFns;

use crate::daemon::host::{Host, LinkRecord, ProgRecord};
use crate::text::{decimal, has, has_char, push_decimal, told};

verus! {

/// Where a program is attached.
#[derive(Debug)]
pub struct AttachInfo {
    pub attached: bool,
    /// The number of the program, if one was found.
    pub prog_id: Option<u32>,
    /// A description for diagnostics.
    pub raw: String,
}

#[verifier::ext_equal]
pub struct AttachView {
    pub attached: bool,
    pub prog_id: Option<u32>,
    pub raw: Seq<char>,
}

impl View for AttachInfo {
    type V = AttachView;

    open spec fn view(&self) -> AttachView {
        AttachView { attached: self.attached, prog_id: self.prog_id, raw: self.raw@ }
    }
}

/// The first item of which `p` holds.
pub open spec fn first<A>(s: Seq<A>, p: spec_fn(A) -> bool) -> Option<int>
    decreases s.len(),
{
    if s.len() == 0 {
        None
    } else {
        match first(s.drop_last(), p) {
            Some(i) => Some(i),
            None => if p(s.last()) {
                Some(s.len() - 1)
            } else {
                None
            },
        }
    }
}

/// `first` gives an item of which `p` holds, with none before it.
pub proof fn lemma_first<A>(s: Seq<A>, p: spec_fn(A) -> bool)
    ensures
        match first(s, p) {
            Some(i) => 0 <= i < s.len() && p(s[i]) && forall|j: int| 0 <= j < i ==> !p(s[j]),
            None => forall|j: int| 0 <= j < s.len() ==> !p(s[j]),
        },
    decreases s.len(),
{
    if s.len() > 0 {
        lemma_first(s.drop_last(), p);
        assert forall|j: int| 0 <= j < s.len() - 1 implies s[j] == s.drop_last()[j] by {}
    }
}

proof fn lemma_first_prefix<A>(s: Seq<A>, p: spec_fn(A) -> bool, n: int)
    requires
        0 <= n <= s.len(),
        first(s.take(n), p) is Some,
    ensures
        first(s, p) == first(s.take(n), p),
    decreases s.len() - n,
{
    if n == s.len() {
        assert(s.take(n) =~= s);
    } else {
        assert(s.take(n + 1).drop_last() =~= s.take(n));
        lemma_first_prefix(s, p, n + 1);
    }
}

/// The first item that is not `p` before `n` and `p` at `n`.
proof fn lemma_first_at<A>(s: Seq<A>, p: spec_fn(A) -> bool, n: int)
    requires
        0 <= n < s.len(),
        first(s.take(n), p) is None,
        p(s[n]),
    ensures
        first(s, p) == Some(n),
{
    assert(s.take(n + 1).drop_last() =~= s.take(n));
    lemma_first_prefix(s, p, n + 1);
}

proof fn lemma_first_not_at<A>(s: Seq<A>, p: spec_fn(A) -> bool, n: int)
    requires
        0 <= n < s.len(),
        first(s.take(n), p) is None,
        !p(s[n]),
    ensures
        first(s.take(n + 1), p) is None,
{
    assert(s.take(n + 1).drop_last() =~= s.take(n));
}

/// A link of the interface.
pub open spec fn link_on(ifindex: u32) -> spec_fn(LinkRecord) -> bool {
    |l: LinkRecord| l.ifindex == ifindex
}

/// An XDP program that names the interface.
pub open spec fn prog_on(ifindex: u32) -> spec_fn(ProgRecord) -> bool {
    |p: ProgRecord| p.xdp && p.ifindex == ifindex
}

/// The XDP program of the known number; where none is known, one of the
/// namespace.
pub open spec fn prog_known(known: Option<u32>, netns: Option<u64>) -> spec_fn(ProgRecord) -> bool {
    |p: ProgRecord|
        p.xdp && match known {
            Some(n) => p.id == n,
            None => netns == Some(p.netns_ino),
        }
}

pub open spec fn prog_xdp() -> spec_fn(ProgRecord) -> bool {
    |p: ProgRecord| p.xdp
}

/// The known number, or `none`.
pub open spec fn known_text(known: Option<u32>) -> Seq<char> {
    match known {
        Some(n) => decimal(n as int),
        None => "none"@,
    }
}

pub open spec fn prog_text(p: ProgRecord) -> Seq<char> {
    "xdp program '"@ + p.name@ + "' (id "@ + decimal(p.id as int) + ")"@
}

/// The attachment to an interface, from the links and programs of the kernel.
pub open spec fn attachment(
    ifindex: u32,
    links: Seq<LinkRecord>,
    progs: Seq<ProgRecord>,
    netns: Option<u64>,
    known: Option<u32>,
) -> AttachView {
    if let Some(i) = first(links, link_on(ifindex)) {
        AttachView {
            attached: true,
            prog_id: Some(links[i].prog_id),
            raw: "xdp link id "@ + decimal(links[i].id as int) + " -> prog "@ + decimal(
                links[i].prog_id as int,
            ) + " on ifindex "@ + decimal(ifindex as int),
        }
    } else if let Some(i) = first(progs, prog_on(ifindex)) {
        AttachView {
            attached: true,
            prog_id: Some(progs[i].id),
            raw: prog_text(progs[i]) + " attached to ifindex "@ + decimal(ifindex as int),
        }
    } else if let Some(i) = first(progs, prog_known(known, netns)) {
        AttachView {
            attached: true,
            prog_id: Some(progs[i].id),
            raw: if known is Some {
                prog_text(progs[i]) + " attached to ifindex "@ + decimal(ifindex as int)
                    + " (legacy bpf_set_link_xdp_fd: ifindex=0 in prog_info, matched by --prog-id "@
                    + known_text(known) + ")"@
            } else {
                prog_text(progs[i]) + " found in netns "@ + decimal(progs[i].netns_ino as int)
                    + " (ifindex not set — legacy attachment)"@
            },
        }
    } else if let (Some(_), Some(i)) = (known, first(progs, prog_xdp())) {
        AttachView {
            attached: true,
            prog_id: Some(progs[i].id),
            raw: prog_text(progs[i])
                + " found (ifindex not set — legacy). known --prog-id was "@ + known_text(known)
                + ", but that program was not found in the loaded program list — it may have been reloaded"@,
        }
    } else {
        not_found(ifindex)
    }
}

pub open spec fn not_found(ifindex: u32) -> AttachView {
    AttachView {
        attached: false,
        prog_id: None,
        raw: "no xdp attachment found for ifindex "@ + decimal(ifindex as int),
    }
}

/// The known number, or `none`.
pub fn pid_display(pid: &Option<u32>) -> (r: String)
    ensures
        r@ == known_text(*pid),
{
    match pid {
        Some(n) => crate::text::decimal_text(*n as u64),
        None => "none".to_string(),
    }
}

fn describe_prog(p: &ProgRecord) -> (r: String)
    ensures
        r@ == prog_text(*p),
{
    let mut s = "xdp program '".to_string();
    s.append(p.name.as_str());
    s.append("' (id ");
    push_decimal(&mut s, p.id as u64);
    s.append(")");
    s
}

/// An index, by what it must be.
pub open spec fn index_is(r: Option<usize>, expected: Option<int>, len: nat) -> bool {
    match (r, expected) {
        (Some(i), Some(j)) => i == j && i < len,
        (None, None) => true,
        _ => false,
    }
}

fn find_link(links: &Vec<LinkRecord>, ifindex: u32) -> (r: Option<usize>)
    ensures
        index_is(r, first(links@, link_on(ifindex)), links@.len()),
{
    let mut i: usize = 0;
    assert(links@.take(0) =~= Seq::empty());
    while i < links.len()
        invariant
            i <= links@.len(),
            first(links@.take(i as int), link_on(ifindex)) is None,
        decreases links@.len() - i,
    {
        if links[i].ifindex == ifindex {
            proof {
                lemma_first_at(links@, link_on(ifindex), i as int);
            }
            return Some(i);
        }
        proof {
            lemma_first_not_at(links@, link_on(ifindex), i as int);
        }
        i += 1;
    }
    assert(links@.take(i as int) =~= links@);
    None
}

fn find_prog_on(progs: &Vec<ProgRecord>, ifindex: u32) -> (r: Option<usize>)
    ensures
        index_is(r, first(progs@, prog_on(ifindex)), progs@.len()),
{
    let mut i: usize = 0;
    assert(progs@.take(0) =~= Seq::empty());
    while i < progs.len()
        invariant
            i <= progs@.len(),
            first(progs@.take(i as int), prog_on(ifindex)) is None,
        decreases progs@.len() - i,
    {
        if progs[i].xdp && progs[i].ifindex == ifindex {
            proof {
                lemma_first_at(progs@, prog_on(ifindex), i as int);
            }
            return Some(i);
        }
        proof {
            lemma_first_not_at(progs@, prog_on(ifindex), i as int);
        }
        i += 1;
    }
    assert(progs@.take(i as int) =~= progs@);
    None
}

fn in_netns(netns: Option<u64>, ino: u64) -> (r: bool)
    ensures
        r == (netns == Some(ino)),
{
    match netns {
        Some(n) => n == ino,
        None => false,
    }
}

fn find_prog_known(progs: &Vec<ProgRecord>, known: Option<u32>, netns: Option<u64>) -> (r: Option<
    usize,
>)
    ensures
        index_is(r, first(progs@, prog_known(known, netns)), progs@.len()),
{
    let mut i: usize = 0;
    assert(progs@.take(0) =~= Seq::empty());
    while i < progs.len()
        invariant
            i <= progs@.len(),
            first(progs@.take(i as int), prog_known(known, netns)) is None,
        decreases progs@.len() - i,
    {
        let matches = match known {
            Some(n) => progs[i].id == n,
            None => in_netns(netns, progs[i].netns_ino),
        };
        if progs[i].xdp && matches {
            proof {
                lemma_first_at(progs@, prog_known(known, netns), i as int);
            }
            return Some(i);
        }
        proof {
            lemma_first_not_at(progs@, prog_known(known, netns), i as int);
        }
        i += 1;
    }
    assert(progs@.take(i as int) =~= progs@);
    None
}

fn find_prog_xdp(progs: &Vec<ProgRecord>) -> (r: Option<usize>)
    ensures
        index_is(r, first(progs@, prog_xdp()), progs@.len()),
{
    let mut i: usize = 0;
    assert(progs@.take(0) =~= Seq::empty());
    while i < progs.len()
        invariant
            i <= progs@.len(),
            first(progs@.take(i as int), prog_xdp()) is None,
        decreases progs@.len() - i,
    {
        if progs[i].xdp {
            proof {
                lemma_first_at(progs@, prog_xdp(), i as int);
            }
            return Some(i);
        }
        proof {
            lemma_first_not_at(progs@, prog_xdp(), i as int);
        }
        i += 1;
    }
    assert(progs@.take(i as int) =~= progs@);
    None
}

/// The attachment to an interface, from the links and programs of the kernel.
pub fn find_attachment(
    ifindex: u32,
    links: &Vec<LinkRecord>,
    progs: &Vec<ProgRecord>,
    netns: Option<u64>,
    known: Option<u32>,
) -> (r: AttachInfo)
    ensures
        r@ == attachment(ifindex, links@, progs@, netns, known),
{
    if let Some(i) = find_link(links, ifindex) {
        let mut raw = "xdp link id ".to_string();
        push_decimal(&mut raw, links[i].id as u64);
        raw.append(" -> prog ");
        push_decimal(&mut raw, links[i].prog_id as u64);
        raw.append(" on ifindex ");
        push_decimal(&mut raw, ifindex as u64);
        return AttachInfo { attached: true, prog_id: Some(links[i].prog_id), raw };
    }
    if let Some(i) = find_prog_on(progs, ifindex) {
        let mut raw = describe_prog(&progs[i]);
        raw.append(" attached to ifindex ");
        push_decimal(&mut raw, ifindex as u64);
        return AttachInfo { attached: true, prog_id: Some(progs[i].id), raw };
    }
    if let Some(i) = find_prog_known(progs, known, netns) {
        let mut raw = describe_prog(&progs[i]);
        if known.is_some() {
            raw.append(" attached to ifindex ");
            push_decimal(&mut raw, ifindex as u64);
            raw.append(
                " (legacy bpf_set_link_xdp_fd: ifindex=0 in prog_info, matched by --prog-id ",
            );
            raw.append(pid_display(&known).as_str());
            raw.append(")");
        } else {
            raw.append(" found in netns ");
            push_decimal(&mut raw, progs[i].netns_ino);
            raw.append(" (ifindex not set — legacy attachment)");
        }
        return AttachInfo { attached: true, prog_id: Some(progs[i].id), raw };
    }
    if known.is_none() {
        return unattached(ifindex);
    }
    if let Some(i) = find_prog_xdp(progs) {
        let mut raw = describe_prog(&progs[i]);
        raw.append(" found (ifindex not set — legacy). known --prog-id was ");
        raw.append(pid_display(&known).as_str());
        raw.append(
            ", but that program was not found in the loaded program list — it may have been reloaded",
        );
        return AttachInfo { attached: true, prog_id: Some(progs[i].id), raw };
    }
    unattached(ifindex)
}

fn unattached(ifindex: u32) -> (r: AttachInfo)
    ensures
        r@ == not_found(ifindex),
{
    let mut raw = "no xdp attachment found for ifindex ".to_string();
    push_decimal(&mut raw, ifindex as u64);
    AttachInfo { attached: false, prog_id: None, raw }
}

/// The kernel was asked for the number of the interface, unless the name
/// cannot be one.
pub open spec fn index_asked<H: Host>(h: &H, iface: Seq<char>, r: Option<u32>) -> bool {
    if has(iface, '\0') {
        r is None
    } else {
        exists|name: String, index: u32|
            {
                &&& name@ == iface
                &&& #[trigger] call_ensures(H::if_nametoindex, (h, name), index)
                &&& r == if index == 0 {
                    None::<u32>
                } else {
                    Some(index)
                }
            }
    }
}

/// The number of an interface.
pub fn if_nameto_index<H: Host>(h: &H, iface: &str) -> (r: Option<u32>)
    ensures
        index_asked(h, iface@, r),
{
    if has_char(iface, '\0') {
        return None;
    }
    let name = iface.to_owned();
    let index: u32 = h.if_nametoindex(name);
    assert(call_ensures(H::if_nametoindex, (h, name), index));
    if index == 0 {
        None
    } else {
        Some(index)
    }
}

pub open spec fn no_interface(iface: Seq<char>) -> Seq<char> {
    "interface '"@ + iface + "' does not exist"@
}

/// The attachment follows from what the kernel lists.
pub open spec fn attachment_found<H: Host>(
    h: &H,
    ifindex: u32,
    known: Option<u32>,
    r: AttachView,
) -> bool {
    exists|links: Vec<LinkRecord>, progs: Vec<ProgRecord>, netns: Option<u64>|
        {
            &&& #[trigger] call_ensures(H::xdp_links, (h,), links)
            &&& #[trigger] call_ensures(H::programs, (h,), progs)
            &&& #[trigger] call_ensures(H::netns_ino, (h,), netns)
            &&& r == attachment(ifindex, links@, progs@, netns, known)
        }
}

/// The interface was looked up; one that exists was looked for.
pub open spec fn attachment_checked<H: Host>(
    h: &H,
    iface: Seq<char>,
    known: Option<u32>,
    r: Result<AttachView, Seq<char>>,
) -> bool {
    exists|index: Option<u32>|
        {
            &&& #[trigger] index_asked(h, iface, index)
            &&& match (index, r) {
                (None, Err(m)) => m == no_interface(iface),
                (Some(i), Ok(v)) => attachment_found(h, i, known, v),
                _ => false,
            }
        }
}

/// Whether an XDP program is attached to an interface. `known_prog_id` is the
/// number of the daemon's own program, where it was told.
pub fn check_xdp_attached<H: Host>(h: &H, iface: &str, known_prog_id: Option<u32>) -> (r: Result<
    AttachInfo,
    String,
>)
    ensures
        attachment_checked(h, iface@, known_prog_id, told(r)),
{
    let index = if_nameto_index(h, iface);
    assert(index_asked(h, iface@, index));
    match index {
        None => {
            let mut m = "interface '".to_string();
            m.append(iface);
            m.append("' does not exist");
            Err(m)
        },
        Some(ifindex) => {
            let links = h.xdp_links();
            let progs = h.programs();
            let netns = h.netns_ino();
            assert(call_ensures(H::xdp_links, (h,), links) && call_ensures(
                H::programs,
                (h,),
                progs,
            ) && call_ensures(H::netns_ino, (h,), netns));
            let info = find_attachment(ifindex, &links, &progs, netns, known_prog_id);
            assert(attachment_found(h, ifindex, known_prog_id, info@));
            Ok(info)
        },
    }
}

/// A program that counts for an interface: an XDP program that names it; with a
/// program known, any XDP program; else one of the namespace.
pub open spec fn counts(p: ProgRecord, ifindex: u32, netns: Option<u64>, known: Option<u32>) -> bool {
    p.xdp && (p.ifindex == ifindex || known is Some || netns == Some(p.netns_ino))
}

/// An interface counts as attached exactly if it has an XDP link or a program
/// that counts for it, and an attached one has a program.
pub proof fn attached_iff_link_or_program(
    ifindex: u32,
    links: Seq<LinkRecord>,
    progs: Seq<ProgRecord>,
    netns: Option<u64>,
    known: Option<u32>,
)
    ensures
        attachment(ifindex, links, progs, netns, known).attached <==> (exists|i: int|
            0 <= i < links.len() && (#[trigger] links[i]).ifindex == ifindex) || (exists|i: int|
            0 <= i < progs.len() && counts(#[trigger] progs[i], ifindex, netns, known)),
        attachment(ifindex, links, progs, netns, known).attached <==> attachment(
            ifindex,
            links,
            progs,
            netns,
            known,
        ).prog_id is Some,
{
    lemma_first(links, link_on(ifindex));
    lemma_first(progs, prog_on(ifindex));
    lemma_first(progs, prog_known(known, netns));
    lemma_first(progs, prog_xdp());
    if exists|i: int| 0 <= i < links.len() && (#[trigger] links[i]).ifindex == ifindex {
        let i = choose|i: int| 0 <= i < links.len() && (#[trigger] links[i]).ifindex == ifindex;
        assert(link_on(ifindex)(links[i]));
    }
    if exists|i: int|
        0 <= i < progs.len() && counts(#[trigger] progs[i], ifindex, netns, known) {
        let i = choose|i: int|
            0 <= i < progs.len() && counts(#[trigger] progs[i], ifindex, netns, known);
        assert(prog_xdp()(progs[i]));
        assert(prog_on(ifindex)(progs[i]) || known is Some || prog_known(known, netns)(progs[i]));
    }
}

/// The program is the one of the first link of the interface; without a link,
/// the first XDP program that names the interface; without one, the known
/// program where it is loaded as an XDP program; and where none is known, the
/// first XDP program of the namespace.
pub proof fn attachment_names_its_program(
    ifindex: u32,
    links: Seq<LinkRecord>,
    progs: Seq<ProgRecord>,
    netns: Option<u64>,
    known: Option<u32>,
    i: int,
)
    ensures
        ({
            let a = attachment(ifindex, links, progs, netns, known);
            let no_link = forall|j: int|
                0 <= j < links.len() ==> (#[trigger] links[j]).ifindex != ifindex;
            let no_prog = forall|j: int|
                0 <= j < progs.len() ==> !((#[trigger] progs[j]).xdp && progs[j].ifindex
                    == ifindex);
            &&& 0 <= i < links.len() && links[i].ifindex == ifindex && (forall|j: int|
                0 <= j < i ==> (#[trigger] links[j]).ifindex != ifindex) ==> a.attached && a.prog_id
                == Some(links[i].prog_id)
            &&& no_link && 0 <= i < progs.len() && progs[i].xdp && progs[i].ifindex == ifindex && (
            forall|j: int|
                0 <= j < i ==> !((#[trigger] progs[j]).xdp && progs[j].ifindex == ifindex))
                ==> a.attached && a.prog_id == Some(progs[i].id)
            &&& no_link && no_prog && 0 <= i < progs.len() && progs[i].xdp && known == Some(
                progs[i].id,
            ) ==> a.attached && a.prog_id == known
            &&& no_link && no_prog && known is None && 0 <= i < progs.len() && progs[i].xdp && netns
                == Some(progs[i].netns_ino) && (forall|j: int|
                0 <= j < i ==> !((#[trigger] progs[j]).xdp && netns == Some(progs[j].netns_ino)))
                ==> a.attached && a.prog_id == Some(progs[i].id)
        }),
{
    lemma_first(links, link_on(ifindex));
    lemma_first(progs, prog_on(ifindex));
    lemma_first(progs, prog_known(known, netns));
    if 0 <= i < links.len() && links[i].ifindex == ifindex && (forall|j: int|
        0 <= j < i ==> (#[trigger] links[j]).ifindex != ifindex) {
        assert(link_on(ifindex)(links[i]));
        let n = first(links, link_on(ifindex))->0;
        assert(link_on(ifindex)(links[n]));
        assert(n == i);
    }
    if 0 <= i < progs.len() && progs[i].xdp {
        if progs[i].ifindex == ifindex {
            assert(prog_on(ifindex)(progs[i]));
        }
        if first(progs, prog_on(ifindex)) is Some {
            let n = first(progs, prog_on(ifindex))->0;
            assert(prog_on(ifindex)(progs[n]));
        }
        if prog_known(known, netns)(progs[i]) {
            let n = first(progs, prog_known(known, netns))->0;
            assert(prog_known(known, netns)(progs[n]));
        }
        if first(links, link_on(ifindex)) is Some {
            let n = first(links, link_on(ifindex))->0;
            assert(link_on(ifindex)(links[n]));
        }
    }
}

} // verus!
