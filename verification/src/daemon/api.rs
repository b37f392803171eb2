//! Answering the commands of the command-line tool.
use vstd::prelude::*;
use vstd::string::StringExecFns;

use crate::acl_key::{parsed_ipv4, Ipv4};
use crate::daemon::attach::{attachment_checked, check_xdp_attached, AttachView};
use crate::daemon::backend::{
    backend_add, backend_added, backend_delete, backend_deleted, backend_flush, backend_list,
    backends_flushed, names_resolved, BackendEntry,
};
use crate::daemon::host::Host;
use crate::daemon::kernel::{
    amended_writes_run, seen, written, ErrorView, MapError, CONNTRACK_MAP, RATE_LIMIT_MAP,
};
use crate::daemon::maps::{
    acl_add, acl_del_by_index, acl_list, acl_listed, acl_listing, acl_views, conntrack_count,
    counters, counters_read, event_mask_get, event_mask_set, keys_counted, mask_read, mask_write,
    opt_str, parsed_action, parsed_rule, rate_limit_count, rows_view, rule_added, rule_deleted,
    vlan_acl_add, vlan_acl_del_by_index,
    vlan_acl_list, vlan_added, vlan_deleted, vlan_listed, vlan_listing, vlan_views, AclEntry,
    AclEntryView, VlanAclEntry, VlanEntryView,
};
use crate::daemon::reload::{reload_config, reloaded};
use crate::daemon::service::{
    service_add, service_add_write, service_delete, service_delete_write, service_flush,
    service_list, service_listing, service_views, services_flushed, services_listed, ServiceEntry,
    ServiceSpec, ServiceView,
};
use crate::daemon::session::{Attempt, Session, Writer};
use crate::display::{counter_name, counter_text, dotted, format_ip, format_mapped, ip_text};
use crate::maps::CounterId;
use crate::protocol::{
    counter_views, Command, CommandView, CounterData, CounterView, Response, ResponseView,
};
use crate::records::{is_unhealthy, BackendSpec};
use crate::text::{
    decimal, decimal_text, lowercase_text, opt_text, pad_left, pad_right, padded_left, padded_right,
    push_decimal, same, texts, to_lowercase, told,
};
use crate::trace::{extends, lemma_same, since};

verus! {

// ---- Lines of lists ----

/// A protocol number as a text.
pub open spec fn proto_text(n: u8) -> Seq<char> {
    match n {
        6 => "tcp"@,
        17 => "udp"@,
        1 => "icmp"@,
        58 => "icmpv6"@,
        _ => decimal(n as int),
    }
}

/// A port as a text, 0 as `any`.
pub open spec fn port_text(p: u16) -> Seq<char> {
    if p == 0 {
        "any"@
    } else {
        decimal(p as int)
    }
}

/// A rate as a text, 0 as a dash.
pub open spec fn rate_text(r: u32) -> Seq<char> {
    if r > 0 {
        decimal(r as int)
    } else {
        "-"@
    }
}

/// The line of an L4 ACL entry.
pub open spec fn acl_line(e: AclEntryView) -> Seq<char> {
    pad_left(decimal(e.id), 3) + " "@ + pad_right(decimal(e.prefix_len as int), 5) + " "@
        + pad_right(decimal(e.family as int), 4) + " "@ + pad_right(
        ip_text(e.src_addr, e.family),
        34,
    ) + " "@ + pad_right(ip_text(e.dst_addr, e.family), 34) + " "@ + pad_right(
        proto_text(e.ip_proto),
        4,
    ) + " "@ + pad_right(port_text(e.src_port), 6) + " "@ + pad_right(port_text(e.dst_port), 6)
        + " "@ + pad_right(rate_text(e.rule.rate), 5) + " "@ + e.action
}

/// The name of an action in a VLAN line.
pub open spec fn vlan_action_text(action: Seq<char>) -> Seq<char> {
    if action == "Allow"@ {
        "allow"@
    } else if action == "Drop"@ {
        "drop"@
    } else if action == "Redirect"@ {
        "redirect"@
    } else if action == "Inspect"@ {
        "inspect"@
    } else {
        lowercase_text(action)
    }
}

/// The inner tag in a VLAN line, 0 as a dash.
pub open spec fn inner_text(v: u16) -> Seq<char> {
    if v == 0 {
        "-"@
    } else {
        decimal(v as int)
    }
}

/// The line of a VLAN ACL entry.
pub open spec fn vlan_line(e: VlanEntryView) -> Seq<char> {
    pad_right(decimal(e.id), 5) + " "@ + pad_right(decimal(e.outer_vlan as int), 10) + " "@
        + pad_right(inner_text(e.inner_vlan), 10) + " "@ + pad_right(
        vlan_action_text(e.action),
        8,
    ) + " "@ + pad_right(decimal(e.rate as int), 6)
}

/// The line of a backend.
pub open spec fn backend_line(e: BackendEntry) -> Seq<char> {
    pad_right(decimal(e.id as int), 4) + " "@ + pad_right(dotted(e.backend.addr@), 18) + " "@
        + pad_right(decimal(e.backend.port as int), 6) + " "@ + pad_right(
        match e.dev_name {
            Some(d) => d@,
            None => "?"@,
        },
        8,
    ) + " "@ + pad_right(decimal(e.backend.backend_group as int), 6) + " "@
        + if e.backend.unhealthy() {
        "unhealthy"@
    } else {
        "ok"@
    }
}

/// The line of a service.
pub open spec fn service_line(e: ServiceView) -> Seq<char> {
    pad_right(dotted(e.addr), 18) + " "@ + pad_right(decimal(e.port as int), 6) + " "@ + pad_right(
        if e.proto == 6 {
            "tcp"@
        } else {
            "udp"@
        },
        6,
    ) + " "@ + pad_right(decimal(e.backend_group as int), 6) + " "@ + decimal(e.flags as int)
}

fn proto_string(n: u8) -> (r: String)
    ensures
        r@ == proto_text(n),
{
    match n {
        6 => "tcp".to_string(),
        17 => "udp".to_string(),
        1 => "icmp".to_string(),
        58 => "icmpv6".to_string(),
        _ => number_string(n),
    }
}

fn number_string(n: u8) -> (r: String)
    ensures
        r@ == decimal(n as int),
{
    decimal_text(n as u64)
}

fn port_string(p: u16) -> (r: String)
    ensures
        r@ == port_text(p),
{
    if p == 0 {
        "any".to_string()
    } else {
        decimal_text(p as u64)
    }
}

fn rate_string(r: u32) -> (s: String)
    ensures
        s@ == rate_text(r),
{
    if r > 0 {
        decimal_text(r as u64)
    } else {
        "-".to_string()
    }
}

fn push_right(s: &mut String, t: &str, width: usize)
    ensures
        final(s)@ == old(s)@ + " "@ + pad_right(t@, width as int),
{
    s.append(" ");
    s.append(padded_right(t, width).as_str());
}

/// The line of an L4 ACL entry.
pub fn format_acl(e: &AclEntry) -> (r: String)
    ensures
        r@ == acl_line(e@),
{
    let mut s = padded_left(decimal_text(e.id as u64).as_str(), 3);
    push_right(&mut s, decimal_text(e.prefix_len as u64).as_str(), 5);
    push_right(&mut s, decimal_text(e.family as u64).as_str(), 4);
    push_right(&mut s, format_ip(&e.src_addr, e.family).as_str(), 34);
    push_right(&mut s, format_ip(&e.dst_addr, e.family).as_str(), 34);
    push_right(&mut s, proto_string(e.ip_proto).as_str(), 4);
    push_right(&mut s, port_string(e.src_port).as_str(), 6);
    push_right(&mut s, port_string(e.dst_port).as_str(), 6);
    push_right(&mut s, rate_string(e.rule.rate).as_str(), 5);
    s.append(" ");
    s.append(e.action.as_str());
    s
}

fn vlan_action_string(action: &str) -> (r: String)
    ensures
        r@ == vlan_action_text(action@),
{
    if same(action, "Allow") {
        "allow".to_string()
    } else if same(action, "Drop") {
        "drop".to_string()
    } else if same(action, "Redirect") {
        "redirect".to_string()
    } else if same(action, "Inspect") {
        "inspect".to_string()
    } else {
        to_lowercase(action)
    }
}

/// The line of a VLAN ACL entry.
pub fn format_vlan(e: &VlanAclEntry) -> (r: String)
    ensures
        r@ == vlan_line(e@),
{
    let inner = if e.inner_vlan == 0 {
        "-".to_string()
    } else {
        decimal_text(e.inner_vlan as u64)
    };
    let mut s = padded_right(decimal_text(e.id as u64).as_str(), 5);
    push_right(&mut s, decimal_text(e.outer_vlan as u64).as_str(), 10);
    push_right(&mut s, inner.as_str(), 10);
    push_right(&mut s, vlan_action_string(e.action.as_str()).as_str(), 8);
    push_right(&mut s, decimal_text(e.rate as u64).as_str(), 6);
    s
}

/// The line of a backend.
pub fn format_backend(e: &BackendEntry) -> (r: String)
    ensures
        r@ == backend_line(*e),
{
    let dev = match &e.dev_name {
        Some(d) => d.as_str(),
        None => "?",
    };
    let mut s = padded_right(decimal_text(e.id as u64).as_str(), 4);
    push_right(&mut s, format_mapped(&e.backend.addr).as_str(), 18);
    push_right(&mut s, decimal_text(e.backend.port as u64).as_str(), 6);
    push_right(&mut s, dev, 8);
    push_right(&mut s, decimal_text(e.backend.backend_group as u64).as_str(), 6);
    s.append(" ");
    if is_unhealthy(&e.backend) {
        s.append("unhealthy");
    } else {
        s.append("ok");
    }
    s
}

/// The line of a service.
pub fn format_service(e: &ServiceEntry) -> (r: String)
    ensures
        r@ == service_line(e@),
{
    let proto = if e.proto == 6 {
        "tcp"
    } else {
        "udp"
    };
    let mut s = padded_right(format_mapped(&e.addr).as_str(), 18);
    push_right(&mut s, decimal_text(e.port as u64).as_str(), 6);
    push_right(&mut s, proto, 6);
    push_right(&mut s, decimal_text(e.backend_group as u64).as_str(), 6);
    s.append(" ");
    push_decimal(&mut s, e.flags as u64);
    s
}

pub open spec fn acl_lines(v: Seq<AclEntryView>) -> Seq<Seq<char>> {
    Seq::new(v.len(), |i: int| acl_line(v[i]))
}

pub open spec fn vlan_lines(v: Seq<VlanEntryView>) -> Seq<Seq<char>> {
    Seq::new(v.len(), |i: int| vlan_line(v[i]))
}

pub open spec fn backend_lines(v: Seq<BackendEntry>) -> Seq<Seq<char>> {
    Seq::new(v.len(), |i: int| backend_line(v[i]))
}

pub open spec fn service_lines(v: Seq<ServiceView>) -> Seq<Seq<char>> {
    Seq::new(v.len(), |i: int| service_line(v[i]))
}

pub open spec fn counter_data(v: Seq<(CounterId, u64)>) -> Seq<CounterView> {
    Seq::new(
        v.len(),
        |i: int|
            CounterView { id: v[i].0.spec_code(), name: counter_text(v[i].0), value: v[i].1 },
    )
}

/// The lines of the L4 ACL.
pub fn format_acl_list(v: &Vec<AclEntry>) -> (r: Vec<String>)
    ensures
        texts(r@) == acl_lines(acl_views(v@)),
{
    let mut out: Vec<String> = Vec::new();
    let ghost all = acl_lines(acl_views(v@));
    let mut i: usize = 0;
    assert(texts(out@) =~= all.take(0));
    while i < v.len()
        invariant
            i <= v@.len(),
            all == acl_lines(acl_views(v@)),
            texts(out@) == all.take(i as int),
        decreases v@.len() - i,
    {
        let line = format_acl(&v[i]);
        let ghost before = out@;
        out.push(line);
        assert(texts(out@) =~= texts(before).push(line@));
        assert(all.take(i + 1) =~= all.take(i as int).push(all[i as int]));
        i += 1;
    }
    assert(all.take(i as int) =~= all);
    out
}

/// The lines of the VLAN ACL.
pub fn format_vlan_list(v: &Vec<VlanAclEntry>) -> (r: Vec<String>)
    ensures
        texts(r@) == vlan_lines(vlan_views(v@)),
{
    let mut out: Vec<String> = Vec::new();
    let ghost all = vlan_lines(vlan_views(v@));
    let mut i: usize = 0;
    assert(texts(out@) =~= all.take(0));
    while i < v.len()
        invariant
            i <= v@.len(),
            all == vlan_lines(vlan_views(v@)),
            texts(out@) == all.take(i as int),
        decreases v@.len() - i,
    {
        let line = format_vlan(&v[i]);
        let ghost before = out@;
        out.push(line);
        assert(texts(out@) =~= texts(before).push(line@));
        assert(all.take(i + 1) =~= all.take(i as int).push(all[i as int]));
        i += 1;
    }
    assert(all.take(i as int) =~= all);
    out
}

/// The lines of the backends.
pub fn format_backend_list(v: &Vec<BackendEntry>) -> (r: Vec<String>)
    ensures
        texts(r@) == backend_lines(v@),
{
    let mut out: Vec<String> = Vec::new();
    let ghost all = backend_lines(v@);
    let mut i: usize = 0;
    assert(texts(out@) =~= all.take(0));
    while i < v.len()
        invariant
            i <= v@.len(),
            all == backend_lines(v@),
            texts(out@) == all.take(i as int),
        decreases v@.len() - i,
    {
        let line = format_backend(&v[i]);
        let ghost before = out@;
        out.push(line);
        assert(texts(out@) =~= texts(before).push(line@));
        assert(all.take(i + 1) =~= all.take(i as int).push(all[i as int]));
        i += 1;
    }
    assert(all.take(i as int) =~= all);
    out
}

/// The lines of the services.
pub fn format_service_list(v: &Vec<ServiceEntry>) -> (r: Vec<String>)
    ensures
        texts(r@) == service_lines(service_views(v@)),
{
    let mut out: Vec<String> = Vec::new();
    let ghost all = service_lines(service_views(v@));
    let mut i: usize = 0;
    assert(texts(out@) =~= all.take(0));
    while i < v.len()
        invariant
            i <= v@.len(),
            all == service_lines(service_views(v@)),
            texts(out@) == all.take(i as int),
        decreases v@.len() - i,
    {
        let line = format_service(&v[i]);
        let ghost before = out@;
        out.push(line);
        assert(texts(out@) =~= texts(before).push(line@));
        assert(all.take(i + 1) =~= all.take(i as int).push(all[i as int]));
        i += 1;
    }
    assert(all.take(i as int) =~= all);
    out
}

/// The counters of an answer.
pub fn name_counters(v: &Vec<(CounterId, u64)>) -> (r: Vec<CounterData>)
    ensures
        counter_views(r@) == counter_data(v@),
{
    let mut out: Vec<CounterData> = Vec::new();
    let ghost all = counter_data(v@);
    let mut i: usize = 0;
    assert(counter_views(out@) =~= all.take(0));
    while i < v.len()
        invariant
            i <= v@.len(),
            all == counter_data(v@),
            counter_views(out@) == all.take(i as int),
        decreases v@.len() - i,
    {
        let (cid, value) = v[i];
        let c = CounterData { id: cid.code(), name: counter_name(cid).to_string(), value };
        let ghost before = out@;
        out.push(c);
        assert(counter_views(out@) =~= counter_views(before).push(c@));
        assert(all.take(i + 1) =~= all.take(i as int).push(all[i as int]));
        i += 1;
    }
    assert(all.take(i as int) =~= all);
    out
}

// ---- Answers ----

/// An answer, or the message of a failure.
pub open spec fn answer(r: Result<Response, String>) -> Result<ResponseView, Seq<char>> {
    told(r)
}

/// The answer to a change: a text where it was made, else a fixed message.
pub open spec fn done<T>(w: Result<T, ErrorView>, text: Seq<char>, failure: Seq<char>) -> Result<
    ResponseView,
    Seq<char>,
> {
    match w {
        Ok(_) => Ok(ResponseView::Success(text)),
        Err(_) => Err(failure),
    }
}

/// A failure answered with its own message.
pub open spec fn failed(e: ErrorView) -> Result<ResponseView, Seq<char>> {
    Err(e.message())
}

fn success(m: String) -> (r: Result<Response, String>)
    ensures
        answer(r) == Ok::<ResponseView, Seq<char>>(ResponseView::Success(m@)),
{
    Ok(Response::Success(m))
}

pub open spec fn acl_list_answered<H: Host>(h: &H, r: Result<ResponseView, Seq<char>>) -> bool {
    exists|list: Result<Seq<AclEntryView>, ErrorView>|
        {
            &&& #[trigger] acl_listed(h, list)
            &&& r == match list {
                Ok(v) => Ok::<ResponseView, Seq<char>>(ResponseView::ListResult(acl_lines(v))),
                Err(e) => failed(e),
            }
        }
}

fn answer_acl_list<H: Host>(h: &H) -> (r: Result<Response, String>)
    ensures
        acl_list_answered(h, answer(r)),
{
    let list = acl_list(h);
    assert(acl_listed(h, acl_listing(list)));
    match list {
        Ok(v) => Ok(Response::ListResult(format_acl_list(&v))),
        Err(e) => Err(e.message()),
    }
}

pub open spec fn acl_add_answered<H: Host>(
    h: &H,
    action: Seq<char>,
    src: Seq<char>,
    dst: Seq<char>,
    proto: Option<Seq<char>>,
    rate: Option<u32>,
    t: Seq<Attempt>,
    r: Result<ResponseView, Seq<char>>,
) -> bool {
    exists|w: Result<(), ErrorView>|
        {
            &&& #[trigger] rule_added(h, action, src, dst, proto, rate, t, w)
            &&& r == done(w, "ACL rule added"@, "Failed to add ACL rule"@)
        }
}

fn answer_acl_add<H: Host, W: Writer>(
    h: &H,
    s: &mut Session<W>,
    action: &str,
    src: &str,
    dst: &str,
    proto: &Option<String>,
    rate: Option<u32>,
) -> (r: Result<Response, String>)
    ensures
        extends(old(s).trace(), final(s).trace()),
        final(s).writer() == old(s).writer(),
        acl_add_answered(
            h,
            action@,
            src@,
            dst@,
            opt_text(*proto),
            rate,
            since(old(s).trace(), final(s).trace()),
            answer(r),
        ),
{
    let ghost start = s.trace();
    proof {
        lemma_same(start);
    }
    let p = match proto {
        Some(s) => Some(s.as_str()),
        None => None,
    };
    assert(opt_str(p) == opt_text(*proto));
    let w = acl_add(h, s, action, src, dst, p, rate);
    assert(rule_added(
        h,
        action@,
        src@,
        dst@,
        opt_text(*proto),
        rate,
        since(start, s.trace()),
        seen(w),
    ));
    match w {
        Ok(_) => success("ACL rule added".to_string()),
        Err(_) => Err("Failed to add ACL rule".to_string()),
    }
}

pub open spec fn acl_del_answered<H: Host>(
    h: &H,
    id: usize,
    t: Seq<Attempt>,
    r: Result<ResponseView, Seq<char>>,
) -> bool {
    exists|w: Result<(), ErrorView>|
        {
            &&& #[trigger] rule_deleted(h, id as int, t, w)
            &&& r == done(w, "Deleted ACL rule "@ + decimal(id as int), "Failed to delete ACL rule"@)
        }
}

fn answer_acl_del<H: Host, W: Writer>(
    h: &H,
    s: &mut Session<W>,
    id: usize,
) -> (r: Result<Response, String>)
    ensures
        extends(old(s).trace(), final(s).trace()),
        final(s).writer() == old(s).writer(),
        acl_del_answered(h, id, since(old(s).trace(), final(s).trace()), answer(r)),
{
    let ghost start = s.trace();
    proof {
        lemma_same(start);
    }
    let w = acl_del_by_index(h, s, id);
    assert(rule_deleted(h, id as int, since(start, s.trace()), seen(w)));
    match w {
        Ok(_) => {
            let mut m = "Deleted ACL rule ".to_string();
            push_decimal(&mut m, id as u64);
            success(m)
        },
        Err(_) => Err("Failed to delete ACL rule".to_string()),
    }
}

pub open spec fn vlan_list_answered<H: Host>(h: &H, r: Result<ResponseView, Seq<char>>) -> bool {
    exists|list: Result<Seq<VlanEntryView>, ErrorView>|
        {
            &&& #[trigger] vlan_listed(h, list)
            &&& r == match list {
                Ok(v) => Ok::<ResponseView, Seq<char>>(ResponseView::ListResult(vlan_lines(v))),
                Err(e) => failed(e),
            }
        }
}

fn answer_vlan_list<H: Host>(h: &H) -> (r: Result<Response, String>)
    ensures
        vlan_list_answered(h, answer(r)),
{
    let list = vlan_acl_list(h);
    assert(vlan_listed(h, vlan_listing(list)));
    match list {
        Ok(v) => Ok(Response::ListResult(format_vlan_list(&v))),
        Err(e) => Err(e.message()),
    }
}

pub open spec fn vlan_add_answered<H: Host>(
    h: &H,
    vlan_id: u16,
    inner: Option<u16>,
    action: Seq<char>,
    rate: Option<u32>,
    t: Seq<Attempt>,
    r: Result<ResponseView, Seq<char>>,
) -> bool {
    exists|w: Result<(), ErrorView>|
        {
            &&& #[trigger] vlan_added(h, vlan_id, inner, action, rate, t, w)
            &&& r == done(
                w,
                "Added VLAN rule: outer_vlan="@ + decimal(vlan_id as int),
                "Failed to add VLAN rule"@,
            )
        }
}

fn answer_vlan_add<H: Host, W: Writer>(
    h: &H,
    s: &mut Session<W>,
    vlan_id: u16,
    inner: Option<u16>,
    action: &str,
    rate: Option<u32>,
) -> (r: Result<Response, String>)
    ensures
        extends(old(s).trace(), final(s).trace()),
        final(s).writer() == old(s).writer(),
        vlan_add_answered(
            h,
            vlan_id,
            inner,
            action@,
            rate,
            since(old(s).trace(), final(s).trace()),
            answer(r),
        ),
{
    let ghost start = s.trace();
    proof {
        lemma_same(start);
    }
    let w = vlan_acl_add(h, s, vlan_id, inner, action, rate);
    assert(vlan_added(h, vlan_id, inner, action@, rate, since(start, s.trace()), seen(w)));
    match w {
        Ok(_) => {
            let mut m = "Added VLAN rule: outer_vlan=".to_string();
            push_decimal(&mut m, vlan_id as u64);
            success(m)
        },
        Err(_) => Err("Failed to add VLAN rule".to_string()),
    }
}

pub open spec fn vlan_del_answered<H: Host>(
    h: &H,
    id: usize,
    t: Seq<Attempt>,
    r: Result<ResponseView, Seq<char>>,
) -> bool {
    exists|w: Result<(), ErrorView>|
        {
            &&& #[trigger] vlan_deleted(h, id as int, t, w)
            &&& r == done(
                w,
                "Deleted VLAN rule "@ + decimal(id as int),
                "Failed to delete VLAN rule"@,
            )
        }
}

fn answer_vlan_del<H: Host, W: Writer>(
    h: &H,
    s: &mut Session<W>,
    id: usize,
) -> (r: Result<Response, String>)
    ensures
        extends(old(s).trace(), final(s).trace()),
        final(s).writer() == old(s).writer(),
        vlan_del_answered(h, id, since(old(s).trace(), final(s).trace()), answer(r)),
{
    let ghost start = s.trace();
    proof {
        lemma_same(start);
    }
    let w = vlan_acl_del_by_index(h, s, id);
    assert(vlan_deleted(h, id as int, since(start, s.trace()), seen(w)));
    match w {
        Ok(_) => {
            let mut m = "Deleted VLAN rule ".to_string();
            push_decimal(&mut m, id as u64);
            success(m)
        },
        Err(_) => Err("Failed to delete VLAN rule".to_string()),
    }
}

pub open spec fn counters_answered<H: Host>(h: &H, r: Result<ResponseView, Seq<char>>) -> bool {
    exists|rows: Result<Seq<(CounterId, u64)>, ErrorView>|
        {
            &&& #[trigger] counters_read(h, rows)
            &&& r == match rows {
                Ok(v) => Ok::<ResponseView, Seq<char>>(ResponseView::CounterResult(counter_data(v))),
                Err(e) => failed(e),
            }
        }
}

fn answer_counters<H: Host>(h: &H) -> (r: Result<Response, String>)
    ensures
        counters_answered(h, answer(r)),
{
    let rows = counters(h);
    assert(counters_read(h, rows_view(rows)));
    match rows {
        Ok(v) => Ok(Response::CounterResult(name_counters(&v))),
        Err(e) => Err(e.message()),
    }
}

pub open spec fn count_answered<H: Host>(
    h: &H,
    map: Seq<char>,
    r: Result<ResponseView, Seq<char>>,
) -> bool {
    exists|n: Result<usize, ErrorView>|
        {
            &&& #[trigger] keys_counted(h, map, n)
            &&& r == match n {
                Ok(c) => Ok::<ResponseView, Seq<char>>(ResponseView::CountResult(c)),
                Err(e) => failed(e),
            }
        }
}

fn count_answer(n: Result<usize, MapError>) -> (r: Result<Response, String>)
    ensures
        answer(r) == match seen(n) {
            Ok(c) => Ok::<ResponseView, Seq<char>>(ResponseView::CountResult(c)),
            Err(e) => failed(e),
        },
{
    match n {
        Ok(c) => Ok(Response::CountResult(c)),
        Err(e) => Err(e.message()),
    }
}

fn answer_conntrack<H: Host>(h: &H) -> (r: Result<Response, String>)
    ensures
        count_answered(h, CONNTRACK_MAP@, answer(r)),
{
    let n = conntrack_count(h);
    assert(keys_counted(h, CONNTRACK_MAP@, seen(n)));
    count_answer(n)
}

fn answer_rate_limit<H: Host>(h: &H) -> (r: Result<Response, String>)
    ensures
        count_answered(h, RATE_LIMIT_MAP@, answer(r)),
{
    let n = rate_limit_count(h);
    assert(keys_counted(h, RATE_LIMIT_MAP@, seen(n)));
    count_answer(n)
}

pub open spec fn backend_list_answered<H: Host>(h: &H, r: Result<ResponseView, Seq<char>>) -> bool {
    exists|list: Result<Vec<BackendEntry>, MapError>|
        {
            &&& #[trigger] backend_list_read(h, list)
            &&& r == match list {
                Ok(v) => Ok::<ResponseView, Seq<char>>(
                    ResponseView::ListResult(backend_lines(v@)),
                ),
                Err(e) => failed(e@),
            }
        }
}

pub open spec fn backend_list_read<H: Host>(
    h: &H,
    list: Result<Vec<BackendEntry>, MapError>,
) -> bool {
    &&& crate::daemon::backend::backends_listed(h, crate::daemon::backend::backend_listing(list))
    &&& list matches Ok(v) ==> names_resolved(h, v@)
}

fn answer_backend_list<H: Host>(h: &H) -> (r: Result<Response, String>)
    ensures
        backend_list_answered(h, answer(r)),
{
    let list = backend_list(h);
    assert(backend_list_read(h, list));
    match list {
        Ok(v) => Ok(Response::ListResult(format_backend_list(&v))),
        Err(e) => Err(e.message()),
    }
}

/// The backend that a command asks to add has the command's fields.
pub open spec fn spec_matches(
    spec: BackendSpec,
    ip: Seq<char>,
    port: u16,
    dev: Seq<char>,
    group: Option<u32>,
) -> bool {
    &&& parsed_ipv4(ip) == Ok::<crate::acl_key::AddrView, Seq<char>>(spec.ip@)
    &&& spec.port == port
    &&& spec.dev@ == dev
    &&& spec.group == match group {
        Some(g) => g,
        None => 0,
    }
}

pub open spec fn backend_add_answered<H: Host>(
    h: &H,
    ip: Seq<char>,
    port: u16,
    dev: Seq<char>,
    group: Option<u32>,
    t: Seq<Attempt>,
    r: Result<ResponseView, Seq<char>>,
) -> bool {
    match parsed_ipv4(ip) {
        Err(e) => r == Err::<ResponseView, Seq<char>>("Invalid IP '"@ + ip + "': "@ + e)
            && t.len() == 0,
        Ok(_) => exists|spec: BackendSpec, w: Result<u32, ErrorView>|
            {
                &&& spec_matches(spec, ip, port, dev, group)
                &&& #[trigger] backend_added(h, spec, t, w)
                &&& r == match w {
                    Ok(id) => Ok::<ResponseView, Seq<char>>(
                        ResponseView::Success("Added backend id="@ + decimal(id as int)),
                    ),
                    Err(_) => Err("Failed to add backend"@),
                }
            },
    }
}

fn answer_backend_add<H: Host, W: Writer>(
    h: &H,
    s: &mut Session<W>,
    ip: &str,
    port: u16,
    dev: String,
    group: Option<u32>,
) -> (r:
    Result<Response, String>)
    ensures
        extends(old(s).trace(), final(s).trace()),
        final(s).writer() == old(s).writer(),
        backend_add_answered(
            h,
            ip@,
            port,
            dev@,
            group,
            since(old(s).trace(), final(s).trace()),
            answer(r),
        ),
{
    let ghost start = s.trace();
    proof {
        lemma_same(start);
    }
    match Ipv4::parse(ip) {
        Err(e) => {
            let mut m = "Invalid IP '".to_string();
            m.append(ip);
            m.append("': ");
            m.append(e.as_str());
            Err(m)
        },
        Ok(ipv4) => {
            let group: u32 = match group {
                Some(g) => g,
                None => 0,
            };
            let spec = BackendSpec { ip: ipv4, port, dev, group };
            let w = backend_add(h, s, &spec);
            assert(backend_added(h, spec, since(start, s.trace()), seen(w)));
            match w {
                Ok(id) => {
                    let mut m = "Added backend id=".to_string();
                    push_decimal(&mut m, id as u64);
                    success(m)
                },
                Err(_) => Err("Failed to add backend".to_string()),
            }
        },
    }
}

pub open spec fn backend_rm_answered<H: Host>(
    h: &H,
    id: u32,
    t: Seq<Attempt>,
    r: Result<ResponseView, Seq<char>>,
) -> bool {
    exists|w: Result<(), ErrorView>|
        {
            &&& #[trigger] backend_deleted(h, id, t, w)
            &&& r == done(w, "Deleted backend "@ + decimal(id as int), "Failed to delete backend"@)
        }
}

fn answer_backend_rm<H: Host, W: Writer>(
    h: &H,
    s: &mut Session<W>,
    id: u32,
) -> (r: Result<Response, String>)
    ensures
        extends(old(s).trace(), final(s).trace()),
        final(s).writer() == old(s).writer(),
        backend_rm_answered(h, id, since(old(s).trace(), final(s).trace()), answer(r)),
{
    let ghost start = s.trace();
    proof {
        lemma_same(start);
    }
    let w = backend_delete(h, s, id);
    assert(backend_deleted(h, id, since(start, s.trace()), seen(w)));
    match w {
        Ok(_) => {
            let mut m = "Deleted backend ".to_string();
            push_decimal(&mut m, id as u64);
            success(m)
        },
        Err(_) => Err("Failed to delete backend".to_string()),
    }
}

/// The answer to a flush: how many went.
pub open spec fn flushed(n: Result<usize, ErrorView>, what: Seq<char>) -> Result<
    ResponseView,
    Seq<char>,
> {
    match n {
        Ok(c) => Ok(ResponseView::Success("Flushed "@ + decimal(c as int) + what)),
        Err(e) => failed(e),
    }
}

fn flush_answer(n: Result<usize, MapError>, what: &str) -> (r: Result<Response, String>)
    ensures
        answer(r) == flushed(seen(n), what@),
{
    match n {
        Ok(c) => {
            let mut m = "Flushed ".to_string();
            push_decimal(&mut m, c as u64);
            m.append(what);
            success(m)
        },
        Err(e) => Err(e.message()),
    }
}

pub open spec fn backend_flush_answered<H: Host>(
    h: &H,
    t: Seq<Attempt>,
    r: Result<ResponseView, Seq<char>>,
) -> bool {
    exists|n: Result<usize, ErrorView>|
        #[trigger] backends_flushed(h, t, n) && r == flushed(n, " backends"@)
}

fn answer_backend_flush<H: Host, W: Writer>(h: &H, s: &mut Session<W>) -> (r: Result<
    Response,
    String,
>)
    ensures
        extends(old(s).trace(), final(s).trace()),
        final(s).writer() == old(s).writer(),
        backend_flush_answered(h, since(old(s).trace(), final(s).trace()), answer(r)),
{
    let ghost start = s.trace();
    proof {
        lemma_same(start);
    }
    let n = backend_flush(h, s);
    assert(backends_flushed(h, since(start, s.trace()), seen(n)));
    flush_answer(n, " backends")
}

pub open spec fn service_list_answered<H: Host>(h: &H, r: Result<ResponseView, Seq<char>>) -> bool {
    exists|list: Result<Seq<ServiceView>, ErrorView>|
        {
            &&& #[trigger] services_listed(h, list)
            &&& r == match list {
                Ok(v) => Ok::<ResponseView, Seq<char>>(ResponseView::ListResult(service_lines(v))),
                Err(e) => failed(e),
            }
        }
}

fn answer_service_list<H: Host>(h: &H) -> (r: Result<Response, String>)
    ensures
        service_list_answered(h, answer(r)),
{
    let list = service_list(h);
    assert(services_listed(h, service_listing(list)));
    match list {
        Ok(v) => Ok(Response::ListResult(format_service_list(&v))),
        Err(e) => Err(e.message()),
    }
}

/// The protocol number of a service command: UDP for all but `tcp`.
pub open spec fn service_proto(proto: Seq<char>) -> u8 {
    if proto == "tcp"@ {
        6
    } else {
        17
    }
}

/// The service that a command names has the command's fields.
pub open spec fn service_matches(
    spec: ServiceSpec,
    addr: Seq<char>,
    port: u16,
    proto: Seq<char>,
    group: u32,
) -> bool {
    &&& parsed_ipv4(addr) == Ok::<crate::acl_key::AddrView, Seq<char>>(spec.addr@)
    &&& spec.port == port
    &&& spec.proto == service_proto(proto)
    &&& spec.group == group
}

/// A service in an answer.
pub open spec fn service_text(addr: Seq<char>, port: u16, proto: Seq<char>) -> Seq<char> {
    addr + ":"@ + decimal(port as int) + " proto="@ + proto
}

pub open spec fn invalid_address(addr: Seq<char>, e: Seq<char>) -> Seq<char> {
    "Invalid address '"@ + addr + "': "@ + e
}

pub open spec fn service_add_answered<H: Host>(
    h: &H,
    addr: Seq<char>,
    port: u16,
    proto: Seq<char>,
    group: Option<u32>,
    t: Seq<Attempt>,
    r: Result<ResponseView, Seq<char>>,
) -> bool {
    match parsed_ipv4(addr) {
        Err(e) => r == Err::<ResponseView, Seq<char>>(invalid_address(addr, e)) && t.len() == 0,
        Ok(_) => exists|spec: ServiceSpec, w: Result<(), ErrorView>|
            {
                &&& service_matches(
                    spec,
                    addr,
                    port,
                    proto,
                    match group {
                        Some(g) => g,
                        None => 0,
                    },
                )
                &&& #[trigger] amended_writes_run(h, seq![service_add_write(spec)], t, w)
                &&& r == done(
                    w,
                    "Added service "@ + service_text(addr, port, proto),
                    "Failed to add service"@,
                )
            },
    }
}

pub open spec fn service_rm_answered<H: Host>(
    h: &H,
    addr: Seq<char>,
    port: u16,
    proto: Seq<char>,
    t: Seq<Attempt>,
    r: Result<ResponseView, Seq<char>>,
) -> bool {
    match parsed_ipv4(addr) {
        Err(e) => r == Err::<ResponseView, Seq<char>>(invalid_address(addr, e)) && t.len() == 0,
        Ok(_) => exists|spec: ServiceSpec, w: Result<(), ErrorView>|
            {
                &&& service_matches(spec, addr, port, proto, 0)
                &&& #[trigger] amended_writes_run(h, seq![service_delete_write(spec)], t, w)
                &&& r == done(
                    w,
                    "Removed service "@ + service_text(addr, port, proto),
                    "Failed to delete service"@,
                )
            },
    }
}

fn service_spec(addr: &str, port: u16, proto: &str, group: u32) -> (r: Result<ServiceSpec, String>)
    ensures
        match r {
            Ok(spec) => service_matches(spec, addr@, port, proto@, group),
            Err(m) => parsed_ipv4(addr@) matches Err(e) && m@ == invalid_address(addr@, e),
        },
{
    match Ipv4::parse(addr) {
        Err(e) => {
            let mut m = "Invalid address '".to_string();
            m.append(addr);
            m.append("': ");
            m.append(e.as_str());
            Err(m)
        },
        Ok(ipv4) => {
            let n: u8 = if same(proto, "tcp") {
                6
            } else {
                17
            };
            Ok(ServiceSpec { addr: ipv4, port, proto: n, group })
        },
    }
}

fn push_service(m: &mut String, addr: &str, port: u16, proto: &str)
    ensures
        final(m)@ == old(m)@ + service_text(addr@, port, proto@),
{
    m.append(addr);
    m.append(":");
    push_decimal(m, port as u64);
    m.append(" proto=");
    m.append(proto);
    assert(m@ =~= old(m)@ + service_text(addr@, port, proto@));
}

fn answer_service_add<H: Host, W: Writer>(
    h: &H,
    s: &mut Session<W>,
    addr: &str,
    port: u16,
    proto: &str,
    group: Option<u32>,
) -> (r:
    Result<Response, String>)
    ensures
        extends(old(s).trace(), final(s).trace()),
        final(s).writer() == old(s).writer(),
        service_add_answered(
            h,
            addr@,
            port,
            proto@,
            group,
            since(old(s).trace(), final(s).trace()),
            answer(r),
        ),
{
    let ghost start = s.trace();
    proof {
        lemma_same(start);
    }
    let group_id: u32 = match group {
        Some(g) => g,
        None => 0,
    };
    match service_spec(addr, port, proto, group_id) {
        Err(m) => Err(m),
        Ok(spec) => {
            let w = service_add(h, s, &spec);
            assert(amended_writes_run(
                h,
                seq![service_add_write(spec)],
                since(start, s.trace()),
                seen(w),
            ));
            match w {
                Ok(_) => {
                    let mut m = "Added service ".to_string();
                    push_service(&mut m, addr, port, proto);
                    success(m)
                },
                Err(_) => Err("Failed to add service".to_string()),
            }
        },
    }
}

fn answer_service_rm<H: Host, W: Writer>(
    h: &H,
    s: &mut Session<W>,
    addr: &str,
    port: u16,
    proto: &str,
) -> (r: Result<
    Response,
    String,
>)
    ensures
        extends(old(s).trace(), final(s).trace()),
        final(s).writer() == old(s).writer(),
        service_rm_answered(
            h,
            addr@,
            port,
            proto@,
            since(old(s).trace(), final(s).trace()),
            answer(r),
        ),
{
    let ghost start = s.trace();
    proof {
        lemma_same(start);
    }
    match service_spec(addr, port, proto, 0) {
        Err(m) => Err(m),
        Ok(spec) => {
            let w = service_delete(h, s, &spec);
            assert(amended_writes_run(
                h,
                seq![service_delete_write(spec)],
                since(start, s.trace()),
                seen(w),
            ));
            match w {
                Ok(_) => {
                    let mut m = "Removed service ".to_string();
                    push_service(&mut m, addr, port, proto);
                    success(m)
                },
                Err(_) => Err("Failed to delete service".to_string()),
            }
        },
    }
}

pub open spec fn service_flush_answered<H: Host>(
    h: &H,
    t: Seq<Attempt>,
    r: Result<ResponseView, Seq<char>>,
) -> bool {
    exists|n: Result<usize, ErrorView>|
        #[trigger] services_flushed(h, t, n) && r == flushed(n, " services"@)
}

fn answer_service_flush<H: Host, W: Writer>(h: &H, s: &mut Session<W>) -> (r: Result<
    Response,
    String,
>)
    ensures
        extends(old(s).trace(), final(s).trace()),
        final(s).writer() == old(s).writer(),
        service_flush_answered(h, since(old(s).trace(), final(s).trace()), answer(r)),
{
    let ghost start = s.trace();
    proof {
        lemma_same(start);
    }
    let n = service_flush(h, s);
    assert(services_flushed(h, since(start, s.trace()), seen(n)));
    flush_answer(n, " services")
}

pub open spec fn mask_get_answered<H: Host>(h: &H, r: Result<ResponseView, Seq<char>>) -> bool {
    exists|m: Result<u64, ErrorView>|
        {
            &&& #[trigger] mask_read(h, m)
            &&& r == match m {
                Ok(v) => Ok::<ResponseView, Seq<char>>(ResponseView::MaskResult(v)),
                Err(e) => failed(e),
            }
        }
}

fn answer_mask_get<H: Host>(h: &H) -> (r: Result<Response, String>)
    ensures
        mask_get_answered(h, answer(r)),
{
    let m = event_mask_get(h);
    assert(mask_read(h, seen(m)));
    match m {
        Ok(v) => Ok(Response::MaskResult(v)),
        Err(e) => Err(e.message()),
    }
}

pub open spec fn mask_set_answered<H: Host>(
    h: &H,
    mask: u64,
    t: Seq<Attempt>,
    r: Result<ResponseView, Seq<char>>,
) -> bool {
    exists|w: Result<(), ErrorView>|
        {
            &&& #[trigger] written(h, mask_write(mask), t, w)
            &&& r == match w {
                Ok(_) => Ok::<ResponseView, Seq<char>>(ResponseView::Success("Event mask set"@)),
                Err(e) => failed(e),
            }
        }
}

fn answer_mask_set<H: Host, W: Writer>(
    h: &H,
    s: &mut Session<W>,
    mask: u64,
) -> (r: Result<Response, String>)
    ensures
        extends(old(s).trace(), final(s).trace()),
        final(s).writer() == old(s).writer(),
        mask_set_answered(h, mask, since(old(s).trace(), final(s).trace()), answer(r)),
{
    let ghost start = s.trace();
    proof {
        lemma_same(start);
    }
    let w = event_mask_set(h, s, mask);
    assert(written(h, mask_write(mask), since(start, s.trace()), seen(w)));
    match w {
        Ok(_) => success("Event mask set".to_string()),
        Err(e) => Err(e.message()),
    }
}

/// The file to reload where a command names none.
pub open spec fn config_path(path: Option<Seq<char>>) -> Seq<char> {
    match path {
        Some(p) => p,
        None => "config2.yml"@,
    }
}

pub open spec fn reload_answered<H: Host>(
    h: &H,
    path: Option<Seq<char>>,
    t: Seq<Attempt>,
    r: Result<ResponseView, Seq<char>>,
) -> bool {
    exists|w: Result<(), ErrorView>|
        {
            &&& #[trigger] reloaded(h, config_path(path), t, w)
            &&& r == match w {
                Ok(_) => Ok::<ResponseView, Seq<char>>(
                    ResponseView::Success("Configuration reloaded"@),
                ),
                Err(e) => failed(e),
            }
        }
}

fn answer_reload<H: Host, W: Writer>(
    h: &H,
    s: &mut Session<W>,
    path: &Option<String>,
) -> (r: Result<Response, String>)
    ensures
        extends(old(s).trace(), final(s).trace()),
        final(s).writer() == old(s).writer(),
        reload_answered(h, opt_text(*path), since(old(s).trace(), final(s).trace()), answer(r)),
{
    let ghost start = s.trace();
    proof {
        lemma_same(start);
    }
    let p = match path {
        Some(p) => p.as_str(),
        None => "config2.yml",
    };
    let w = reload_config(h, s, p);
    assert(reloaded(h, config_path(opt_text(*path)), since(start, s.trace()), seen(w)));
    match w {
        Ok(_) => success("Configuration reloaded".to_string()),
        Err(e) => Err(e.message()),
    }
}

pub open spec fn attach_answered<H: Host>(
    h: &H,
    iface: Seq<char>,
    known: Option<u32>,
    r: Result<ResponseView, Seq<char>>,
) -> bool {
    exists|a: Result<AttachView, Seq<char>>|
        {
            &&& #[trigger] attachment_checked(h, iface, known, a)
            &&& r == match a {
                Ok(v) => Ok::<ResponseView, Seq<char>>(
                    ResponseView::AttachmentResult { attached: v.attached, prog_id: v.prog_id },
                ),
                Err(m) => Err(m),
            }
        }
}

fn answer_attach<H: Host>(h: &H, iface: &str, known: Option<u32>) -> (r: Result<Response, String>)
    ensures
        attach_answered(h, iface@, known, answer(r)),
{
    let a = check_xdp_attached(h, iface, known);
    assert(attachment_checked(h, iface@, known, told(a)));
    match a {
        Ok(v) => Ok(Response::AttachmentResult { attached: v.attached, prog_id: v.prog_id }),
        Err(m) => Err(m),
    }
}

// ---- Commands ----

/// The answer to a command, and the changes that it made.
pub open spec fn answered<H: Host>(
    h: &H,
    command: CommandView,
    known: Option<u32>,
    t: Seq<Attempt>,
    r: Result<ResponseView, Seq<char>>,
) -> bool {
    match command {
        CommandView::AclList { iface } => acl_list_answered(h, r) && t.len() == 0,
        CommandView::AclAdd { iface, action, src, dst, proto, rate } => acl_add_answered(
            h,
            action,
            src,
            dst,
            proto,
            rate,
            t,
            r,
        ),
        CommandView::AclDel { iface, id } => acl_del_answered(h, id, t, r),
        CommandView::AclVlanList { iface } => vlan_list_answered(h, r) && t.len() == 0,
        CommandView::AclVlanAdd { iface, vlan_id, action, inner_vlan, rate } => vlan_add_answered(
            h,
            vlan_id,
            inner_vlan,
            action,
            rate,
            t,
            r,
        ),
        CommandView::AclVlanDel { iface, id } => vlan_del_answered(h, id, t, r),
        CommandView::CountersShow { iface } => counters_answered(h, r) && t.len() == 0,
        CommandView::ConntrackShow { iface } => count_answered(h, CONNTRACK_MAP@, r) && t.len()
            == 0,
        CommandView::RateLimitShow { iface } => count_answered(h, RATE_LIMIT_MAP@, r) && t.len()
            == 0,
        CommandView::EventMaskGet => mask_get_answered(h, r) && t.len() == 0,
        CommandView::EventMaskSet { mask } => mask_set_answered(h, mask, t, r),
        CommandView::ConfigReload { path } => reload_answered(h, path, t, r),
        CommandView::CheckXdpAttached { iface } => attach_answered(h, iface, known, r) && t.len()
            == 0,
        CommandView::BackendList { iface } => backend_list_answered(h, r) && t.len() == 0,
        CommandView::BackendAdd { iface, ip, port, dev, group } => backend_add_answered(
            h,
            ip,
            port,
            dev,
            group,
            t,
            r,
        ),
        CommandView::BackendRm { iface, id } => backend_rm_answered(h, id, t, r),
        CommandView::BackendFlush { iface } => backend_flush_answered(h, t, r),
        CommandView::ServiceList { iface } => service_list_answered(h, r) && t.len() == 0,
        CommandView::ServiceAdd { iface, addr, port, proto, group } => service_add_answered(
            h,
            addr,
            port,
            proto,
            group,
            t,
            r,
        ),
        CommandView::ServiceRm { iface, addr, port, proto } => service_rm_answered(
            h,
            addr,
            port,
            proto,
            t,
            r,
        ),
        CommandView::ServiceFlush { iface } => service_flush_answered(h, t, r),
    }
}

/// Carries out a command. `known_prog_id` is the number of the daemon's own
/// program, where it was told.
pub fn process_command<H: Host, W: Writer>(
    h: &H,
    s: &mut Session<W>,
    command: Command,
    known_prog_id: Option<u32>,
) -> (r: Result<Response, String>)
    ensures
        extends(old(s).trace(), final(s).trace()),
        final(s).writer() == old(s).writer(),
        answered(
            h,
            command@,
            known_prog_id,
            since(old(s).trace(), final(s).trace()),
            answer(r),
        ),
{
    proof {
        lemma_same(s.trace());
    }
    match command {
        Command::AclList { .. } => answer_acl_list(h),
        Command::AclAdd { action, src, dst, proto, rate, .. } => answer_acl_add(
            h,
            s,
            action.as_str(),
            src.as_str(),
            dst.as_str(),
            &proto,
            rate,
        ),
        Command::AclDel { id, .. } => answer_acl_del(h, s, id),
        Command::AclVlanList { .. } => answer_vlan_list(h),
        Command::AclVlanAdd { vlan_id, action, inner_vlan, rate, .. } => answer_vlan_add(
            h,
            s,
            vlan_id,
            inner_vlan,
            action.as_str(),
            rate,
        ),
        Command::AclVlanDel { id, .. } => answer_vlan_del(h, s, id),
        Command::CountersShow { .. } => answer_counters(h),
        Command::ConntrackShow { .. } => answer_conntrack(h),
        Command::RateLimitShow { .. } => answer_rate_limit(h),
        Command::EventMaskGet => answer_mask_get(h),
        Command::EventMaskSet { mask } => answer_mask_set(h, s, mask),
        Command::ConfigReload { path } => answer_reload(h, s, &path),
        Command::CheckXdpAttached { iface } => answer_attach(h, iface.as_str(), known_prog_id),
        Command::BackendList { .. } => answer_backend_list(h),
        Command::BackendAdd { ip, port, dev, group, .. } => answer_backend_add(
            h,
            s,
            ip.as_str(),
            port,
            dev,
            group,
        ),
        Command::BackendRm { id, .. } => answer_backend_rm(h, s, id),
        Command::BackendFlush { .. } => answer_backend_flush(h, s),
        Command::ServiceList { .. } => answer_service_list(h),
        Command::ServiceAdd { addr, port, proto, group, .. } => answer_service_add(
            h,
            s,
            addr.as_str(),
            port,
            proto.as_str(),
            group,
        ),
        Command::ServiceRm { addr, port, proto, .. } => answer_service_rm(
            h,
            s,
            addr.as_str(),
            port,
            proto.as_str(),
        ),
        Command::ServiceFlush { .. } => answer_service_flush(h, s),
    }
}

/// What a client is sent: the answer, or the failure as an answer.
pub open spec fn sent(r: Result<ResponseView, Seq<char>>) -> ResponseView {
    match r {
        Ok(v) => v,
        Err(m) => ResponseView::Error(m),
    }
}

/// Answers what a client sent: a command, or a message that could not be read.
pub fn handle_command<H: Host, W: Writer>(
    h: &H,
    s: &mut Session<W>,
    command: Result<Command, String>,
    known_prog_id: Option<u32>,
) -> (r: Response)
    ensures
        extends(old(s).trace(), final(s).trace()),
        final(s).writer() == old(s).writer(),
        match command {
            Err(e) => r@ == ResponseView::Error("Failed to parse command: "@ + e@)
                && since(old(s).trace(), final(s).trace()).len() == 0,
            Ok(c) => exists|a: Result<ResponseView, Seq<char>>|
                #[trigger] answered(
                    h,
                    c@,
                    known_prog_id,
                    since(old(s).trace(), final(s).trace()),
                    a,
                ) && r@ == sent(a),
        },
{
    let ghost start = s.trace();
    proof {
        lemma_same(start);
    }
    match command {
        Err(e) => {
            let mut m = "Failed to parse command: ".to_string();
            m.append(e.as_str());
            Response::Error(m)
        },
        Ok(c) => {
            let ghost view = c@;
            let a = process_command(h, s, c, known_prog_id);
            assert(answered(h, view, known_prog_id, since(start, s.trace()), answer(a)));
            match a {
                Ok(resp) => resp,
                Err(m) => Response::Error(m),
            }
        },
    }
}

// ---- Laws ----

/// The command only asks.
pub open spec fn only_asks(command: CommandView) -> bool {
    match command {
        CommandView::AclList { .. } => true,
        CommandView::AclVlanList { .. } => true,
        CommandView::CountersShow { .. } => true,
        CommandView::ConntrackShow { .. } => true,
        CommandView::RateLimitShow { .. } => true,
        CommandView::EventMaskGet => true,
        CommandView::CheckXdpAttached { .. } => true,
        CommandView::BackendList { .. } => true,
        CommandView::ServiceList { .. } => true,
        _ => false,
    }
}

/// The command names something that is none: a rule, an action, an address.
pub open spec fn names_nothing(command: CommandView) -> bool {
    match command {
        CommandView::AclAdd { iface, action, src, dst, proto, rate } => parsed_rule(
            action,
            src,
            dst,
            proto,
            rate,
        ) is Err,
        CommandView::AclVlanAdd { action, .. } => parsed_action(action) is Err,
        CommandView::BackendAdd { ip, .. } => parsed_ipv4(ip) is Err,
        CommandView::ServiceAdd { addr, .. } => parsed_ipv4(addr) is Err,
        CommandView::ServiceRm { addr, .. } => parsed_ipv4(addr) is Err,
        _ => false,
    }
}

/// A command that only asks tries no change of any map.
pub proof fn asking_changes_nothing<H: Host>(
    h: &H,
    command: CommandView,
    known: Option<u32>,
    t: Seq<Attempt>,
    r: Result<ResponseView, Seq<char>>,
)
    requires
        answered(h, command, known, t, r),
        only_asks(command),
    ensures
        t.len() == 0,
{
}

/// A command whose rule, action or address is refused fails and tries no change
/// of any map.
pub proof fn refused_command_changes_nothing<H: Host>(
    h: &H,
    command: CommandView,
    known: Option<u32>,
    t: Seq<Attempt>,
    r: Result<ResponseView, Seq<char>>,
)
    requires
        answered(h, command, known, t, r),
        names_nothing(command),
    ensures
        t.len() == 0,
        r is Err,
{
}

} // verus!
