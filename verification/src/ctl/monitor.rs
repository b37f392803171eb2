//! The subcommands that show counters and tables and choose the events.
use vstd::prelude::*;
use vstd::string::StringExecFns;

use crate::ctl::cli::{
    fails, iface_of, iface_or_default, print, prints, fail, fail_str, fail_with, tail, Outcome,
    OutcomeView,
};
use crate::ctl::client::{
    answer, asked, config_reload, conntrack_count, count_in, counters, counters_in, event_mask_get,
    event_mask_set, mask_in, pairs_result, plain, rate_limit_count, success_text, Channel, Daemon,
    Exchange,
};
use crate::daemon::monitoring::{event_name, kind_name};
use crate::maps::{CounterId, EventKind};
use crate::protocol::CommandView;
use crate::text::{
    decimal, decimal_text, hex, hex_text, lower_text, lowercase_text, pad_right, padded_right,
    push_decimal, same, texts, to_lowercase, told,
};
use crate::xdp::{event_enabled, event_enabled_by};

verus! {

// ---- counters ----

/// The name of a counter in the tool.
pub open spec fn tool_counter_text(c: CounterId) -> Seq<char> {
    match c {
        CounterId::RxPackets => "rx_packets"@,
        CounterId::RxBytes => "rx_bytes"@,
        CounterId::Passed => "passed"@,
        CounterId::Dropped => "dropped"@,
        CounterId::Redirected => "redirected"@,
        CounterId::ConntrackHit => "conntrack_hit"@,
        CounterId::ConntrackMiss => "conntrack_miss"@,
        CounterId::AclDrop => "acl_drop"@,
        CounterId::AclAllow => "acl_allow"@,
        CounterId::AclRedirect => "acl_redirect"@,
        CounterId::RateLimited => "rate_limited"@,
        CounterId::ParseError => "parse_error"@,
        CounterId::TcFragment => "tc_fragment"@,
        CounterId::SlowPath => "slow_path"@,
        CounterId::HostFound => "host_found"@,
        CounterId::RxIpv4 => "rx_ipv4"@,
        CounterId::RxIpv6 => "rx_ipv6"@,
        CounterId::RxIcmpv6 => "rx_icmpv6"@,
        CounterId::RxTcp => "rx_tcp"@,
        CounterId::RxUdp => "rx_udp"@,
        CounterId::Unknown => "unknown"@,
        CounterId::BackendUnavailable => "backend_unavailable"@,
        CounterId::RedirectFailed => "redirect_failed"@,
        CounterId::BackendSelected => "backend_selected"@,
        CounterId::ServiceMiss => "service_miss"@,
        CounterId::ServiceHit => "service_hit"@,
        CounterId::RxVlan => "rx_vlan"@,
    }
}

/// The name of a counter in the tool.
pub fn counter_name(id: CounterId) -> (r: &'static str)
    ensures
        r@ == tool_counter_text(id),
{
    match id {
        CounterId::RxPackets => "rx_packets",
        CounterId::RxBytes => "rx_bytes",
        CounterId::Passed => "passed",
        CounterId::Dropped => "dropped",
        CounterId::Redirected => "redirected",
        CounterId::ConntrackHit => "conntrack_hit",
        CounterId::ConntrackMiss => "conntrack_miss",
        CounterId::AclDrop => "acl_drop",
        CounterId::AclAllow => "acl_allow",
        CounterId::AclRedirect => "acl_redirect",
        CounterId::RateLimited => "rate_limited",
        CounterId::ParseError => "parse_error",
        CounterId::TcFragment => "tc_fragment",
        CounterId::SlowPath => "slow_path",
        CounterId::HostFound => "host_found",
        CounterId::RxIpv4 => "rx_ipv4",
        CounterId::RxIpv6 => "rx_ipv6",
        CounterId::RxIcmpv6 => "rx_icmpv6",
        CounterId::RxTcp => "rx_tcp",
        CounterId::RxUdp => "rx_udp",
        CounterId::Unknown => "unknown",
        CounterId::BackendUnavailable => "backend_unavailable",
        CounterId::RedirectFailed => "redirect_failed",
        CounterId::BackendSelected => "backend_selected",
        CounterId::ServiceMiss => "service_miss",
        CounterId::ServiceHit => "service_hit",
        CounterId::RxVlan => "rx_vlan",
    }
}

pub open spec fn counter_row(name: Seq<char>, value: Seq<char>) -> Seq<char> {
    pad_right(name, 20) + " "@ + pad_right(value, 20) + "\n"@
}

/// The table of the counters.
pub open spec fn counter_table(v: Seq<(CounterId, u64)>) -> Seq<char>
    decreases v.len(),
{
    if v.len() == 0 {
        counter_row("counter"@, "value"@)
    } else {
        counter_table(v.drop_last()) + counter_row(
            tool_counter_text(v.last().0),
            decimal(v.last().1 as int),
        )
    }
}

/// The outcome of `counters show` for an answer.
pub open spec fn counters_outcome(c: Result<Seq<(CounterId, u64)>, Seq<char>>) -> OutcomeView {
    match c {
        Err(e) => fails("Failed to get counters: "@ + e),
        Ok(v) => if v.len() == 0 {
            prints("(no counters)\n"@)
        } else {
            prints(counter_table(v))
        },
    }
}

fn row(name: &str, value: &str) -> (r: String)
    ensures
        r@ == counter_row(name@, value@),
{
    let mut s = padded_right(name, 20);
    s.append(" ");
    s.append(padded_right(value, 20).as_str());
    s.append("\n");
    s
}

fn format_counters(v: &Vec<(CounterId, u64)>) -> (r: String)
    ensures
        r@ == counter_table(v@),
{
    let mut s = row("counter", "value");
    let mut i: usize = 0;
    assert(v@.take(0) =~= Seq::empty());
    while i < v.len()
        invariant
            i <= v@.len(),
            s@ == counter_table(v@.take(i as int)),
        decreases v@.len() - i,
    {
        assert(v@.take(i + 1).drop_last() =~= v@.take(i as int));
        let (id, value) = v[i];
        s.append(row(counter_name(id), decimal_text(value).as_str()).as_str());
        i += 1;
    }
    assert(v@.take(i as int) =~= v@);
    s
}

/// The outcome of `counters show` for an answer.
pub fn show_counters(c: Result<Vec<(CounterId, u64)>, String>) -> (r: Outcome)
    ensures
        r@ == counters_outcome(pairs_result(c)),
{
    match c {
        Err(e) => fail_with("Failed to get counters: ", e.as_str()),
        Ok(v) => {
            if v.len() == 0 {
                print("(no counters)\n".to_string())
            } else {
                print(format_counters(&v))
            }
        },
    }
}

/// The arguments start with `show`.
pub open spec fn shows(args: Seq<Seq<char>>) -> bool {
    args.len() > 0 && args[0] == "show"@
}

fn is_show(args: &Vec<String>) -> (r: bool)
    ensures
        r == shows(texts(args@)),
{
    if args.len() == 0 {
        return false;
    }
    assert(texts(args@)[0] == args@[0]@);
    same(args[0].as_str(), "show")
}

pub open spec fn counters_ran(
    before: Seq<Exchange>,
    args: Seq<Seq<char>>,
    after: Seq<Exchange>,
    r: OutcomeView,
) -> bool {
    if !shows(args) {
        after == before && r == fails("usage: ebpf-ctl counters show [--iface <dev>]"@)
    } else {
        &&& asked(before, CommandView::CountersShow { iface: iface_of(args.skip(1)) }, after)
        &&& r == counters_outcome(counters_in(answer(after)))
    }
}

pub fn counters_cmd<D: Daemon>(d: &mut Channel<D>, args: &Vec<String>) -> (r: Outcome)
    ensures
        final(d).daemon() == old(d).daemon(),
        counters_ran(old(d).log(), texts(args@), final(d).log(), r@),
{
    if !is_show(args) {
        return fail_str("usage: ebpf-ctl counters show [--iface <dev>]");
    }
    let rest = tail(args);
    let iface = iface_or_default(&rest);
    let c = counters(d, iface.as_str());
    show_counters(c)
}

// ---- conntrack, rate-limit ----

/// The outcome of a count for an answer.
pub open spec fn count_outcome(
    n: Result<usize, Seq<char>>,
    failure: Seq<char>,
    what: Seq<char>,
) -> OutcomeView {
    match n {
        Err(e) => fails(failure + e),
        Ok(c) => prints(what + decimal(c as int) + "\n"@),
    }
}

/// The outcome of a count for an answer.
pub fn show_count(n: Result<usize, String>, failure: &str, what: &str) -> (r: Outcome)
    ensures
        r@ == count_outcome(plain(n), failure@, what@),
{
    match n {
        Err(e) => fail_with(failure, e.as_str()),
        Ok(c) => {
            let mut s = what.to_owned();
            push_decimal(&mut s, c as u64);
            s.append("\n");
            print(s)
        },
    }
}

pub open spec fn conntrack_ran(
    before: Seq<Exchange>,
    args: Seq<Seq<char>>,
    after: Seq<Exchange>,
    r: OutcomeView,
) -> bool {
    if !shows(args) {
        after == before && r == fails("usage: ebpf-ctl conntrack show [--iface <dev>]"@)
    } else {
        &&& asked(before, CommandView::ConntrackShow { iface: iface_of(args.skip(1)) }, after)
        &&& r == count_outcome(
            count_in(answer(after)),
            "Failed to get conntrack info: "@,
            "conntrack entries: "@,
        )
    }
}

pub fn conntrack_cmd<D: Daemon>(d: &mut Channel<D>, args: &Vec<String>) -> (r: Outcome)
    ensures
        final(d).daemon() == old(d).daemon(),
        conntrack_ran(old(d).log(), texts(args@), final(d).log(), r@),
{
    if !is_show(args) {
        return fail_str("usage: ebpf-ctl conntrack show [--iface <dev>]");
    }
    let rest = tail(args);
    let iface = iface_or_default(&rest);
    let n = conntrack_count(d, iface.as_str());
    show_count(n, "Failed to get conntrack info: ", "conntrack entries: ")
}

pub open spec fn rate_limit_ran(
    before: Seq<Exchange>,
    args: Seq<Seq<char>>,
    after: Seq<Exchange>,
    r: OutcomeView,
) -> bool {
    if !shows(args) {
        after == before && r == fails("usage: ebpf-ctl rate-limit show [--iface <dev>]"@)
    } else {
        &&& asked(before, CommandView::RateLimitShow { iface: iface_of(args.skip(1)) }, after)
        &&& r == count_outcome(
            count_in(answer(after)),
            "Failed to get rate-limit info: "@,
            "rate-limit entries: "@,
        )
    }
}

pub fn rate_limit_cmd<D: Daemon>(d: &mut Channel<D>, args: &Vec<String>) -> (r: Outcome)
    ensures
        final(d).daemon() == old(d).daemon(),
        rate_limit_ran(old(d).log(), texts(args@), final(d).log(), r@),
{
    if !is_show(args) {
        return fail_str("usage: ebpf-ctl rate-limit show [--iface <dev>]");
    }
    let rest = tail(args);
    let iface = iface_or_default(&rest);
    let n = rate_limit_count(d, iface.as_str());
    show_count(n, "Failed to get rate-limit info: ", "rate-limit entries: ")
}

// ---- event-log ----

/// The kind of event that a lowercase name stands for.
pub open spec fn kind_named(name: Seq<char>) -> Option<EventKind> {
    if name == "packetdrop"@ || name == "packet-drop"@ || name == "drop"@ {
        Some(EventKind::PacketDrop)
    } else if name == "ratelimited"@ || name == "rate-limited"@ {
        Some(EventKind::RateLimited)
    } else if name == "conntrackmiss"@ || name == "conntrack-miss"@ {
        Some(EventKind::ConntrackMiss)
    } else if name == "backendselected"@ || name == "backend-selected"@ {
        Some(EventKind::BackendSelected)
    } else if name == "slowpath"@ || name == "slow-path"@ {
        Some(EventKind::SlowPath)
    } else if name == "servicematched"@ || name == "service-matched"@ {
        Some(EventKind::ServiceMatched)
    } else if name == "vlandetected"@ || name == "vlan-detected"@ {
        Some(EventKind::VlanDetected)
    } else if name == "packetallow"@ || name == "packet-allow"@ {
        Some(EventKind::PacketAllow)
    } else {
        None
    }
}

/// The kind of event that a lowercase name stands for.
pub fn event_kind_named(name: &str) -> (r: Option<EventKind>)
    ensures
        r == kind_named(name@),
{
    if same(name, "packetdrop") || same(name, "packet-drop") || same(name, "drop") {
        Some(EventKind::PacketDrop)
    } else if same(name, "ratelimited") || same(name, "rate-limited") {
        Some(EventKind::RateLimited)
    } else if same(name, "conntrackmiss") || same(name, "conntrack-miss") {
        Some(EventKind::ConntrackMiss)
    } else if same(name, "backendselected") || same(name, "backend-selected") {
        Some(EventKind::BackendSelected)
    } else if same(name, "slowpath") || same(name, "slow-path") {
        Some(EventKind::SlowPath)
    } else if same(name, "servicematched") || same(name, "service-matched") {
        Some(EventKind::ServiceMatched)
    } else if same(name, "vlandetected") || same(name, "vlan-detected") {
        Some(EventKind::VlanDetected)
    } else if same(name, "packetallow") || same(name, "packet-allow") {
        Some(EventKind::PacketAllow)
    } else {
        None
    }
}

/// The kind of event that a text names, in any case.
pub open spec fn parsed_kind(s: Seq<char>, lowercase: Seq<char>) -> Result<EventKind, Seq<char>> {
    match kind_named(lowercase) {
        Some(k) => Ok(k),
        None => Err(
            "unknown event kind: '"@ + s
                + "'\nAvailable: PacketDrop, RateLimited, ConntrackMiss, BackendSelected, SlowPath, ServiceMatched, VlanDetected, PacketAllow\n(shorthand forms supported: packet-drop, rate-limited, conntrack-miss, etc.)"@,
        ),
    }
}

/// The characters are all ASCII.
pub open spec fn ascii(s: Seq<char>) -> bool {
    forall|i: int| 0 <= i < s.len() ==> (#[trigger] s[i] as u32) < 128
}

/// Reads the kind of event that a text names.
pub fn parse_event_kind(s: &str) -> (r: Result<EventKind, String>)
    ensures
        plain(r) == parsed_kind(s@, lowercase_text(s@)),
        ascii(s@) ==> plain(r) == parsed_kind(s@, lower_text(s@)),
{
    let name = to_lowercase(s);
    match event_kind_named(name.as_str()) {
        Some(k) => Ok(k),
        None => {
            let mut m = "unknown event kind: '".to_string();
            m.append(s);
            m.append(
                "'\nAvailable: PacketDrop, RateLimited, ConntrackMiss, BackendSelected, SlowPath, ServiceMatched, VlanDetected, PacketAllow\n(shorthand forms supported: packet-drop, rate-limited, conntrack-miss, etc.)",
            );
            Err(m)
        },
    }
}

/// All kinds of events.
pub open spec fn all_kinds() -> Seq<EventKind> {
    seq![
        EventKind::PacketDrop,
        EventKind::RateLimited,
        EventKind::ConntrackMiss,
        EventKind::BackendSelected,
        EventKind::SlowPath,
        EventKind::ServiceMatched,
        EventKind::VlanDetected,
        EventKind::PacketAllow,
    ]
}

/// All kinds of events.
pub fn event_kinds() -> (r: Vec<EventKind>)
    ensures
        r@ == all_kinds(),
{
    let v = vec![
        EventKind::PacketDrop,
        EventKind::RateLimited,
        EventKind::ConntrackMiss,
        EventKind::BackendSelected,
        EventKind::SlowPath,
        EventKind::ServiceMatched,
        EventKind::VlanDetected,
        EventKind::PacketAllow,
    ];
    assert(v@ =~= all_kinds());
    v
}

/// A mask with the bit of a kind set or cleared.
pub open spec fn with_kind(mask: u64, kind: EventKind, enable: bool) -> u64 {
    if enable {
        mask | (1u64 << (kind.spec_code() as u64))
    } else {
        mask & !(1u64 << (kind.spec_code() as u64))
    }
}

/// A mask with the bit of a kind set or cleared.
pub fn change_mask(mask: u64, kind: EventKind, enable: bool) -> (r: u64)
    ensures
        r == with_kind(mask, kind, enable),
{
    let code: u64 = kind.code() as u64;
    let bit: u64 = 1u64 << code;
    if enable {
        mask | bit
    } else {
        mask & !bit
    }
}

/// Changing a kind decides whether it is published and leaves all others as
/// they were.
pub proof fn change_affects_one_kind(mask: u64, kind: EventKind, enable: bool, other: EventKind)
    ensures
        event_enabled_by(with_kind(mask, kind, enable), other) == if other == kind {
            enable
        } else {
            event_enabled_by(mask, other)
        },
{
    let a = kind.spec_code() as u64;
    let b = other.spec_code() as u64;
    assert(((mask | (1u64 << a)) >> b) & 1 == if a == b {
        1u64
    } else {
        (mask >> b) & 1
    }) by (bit_vector)
        requires
            a < 64,
            b < 64,
    ;
    assert(((mask & !(1u64 << a)) >> b) & 1 == if a == b {
        0u64
    } else {
        (mask >> b) & 1
    }) by (bit_vector)
        requires
            a < 64,
            b < 64,
    ;
    crate::daemon::monitoring::event_numbers_are_inverse(kind, 0);
    crate::daemon::monitoring::event_numbers_are_inverse(other, 0);
}

/// Enabling and then disabling a kind that was not published gives the mask
/// back, and so does disabling and then enabling one that was.
pub proof fn enable_disable_roundtrip(mask: u64, kind: EventKind)
    ensures
        !event_enabled_by(mask, kind) ==> with_kind(with_kind(mask, kind, true), kind, false)
            == mask,
        event_enabled_by(mask, kind) ==> with_kind(with_kind(mask, kind, false), kind, true)
            == mask,
{
    let a = kind.spec_code() as u64;
    assert((mask >> a) & 1 != 1 ==> (mask | (1u64 << a)) & !(1u64 << a) == mask) by (bit_vector)
        requires
            a < 64,
    ;
    assert((mask >> a) & 1 == 1 ==> (mask & !(1u64 << a)) | (1u64 << a) == mask) by (bit_vector)
        requires
            a < 64,
    ;
}

/// The line of a kind in the list.
pub open spec fn kind_line(mask: u64, kind: EventKind) -> Seq<char> {
    if event_enabled_by(mask, kind) {
        "  [x] "@ + kind_name(kind) + "\n"@
    } else {
        "  [ ] "@ + kind_name(kind) + "\n"@
    }
}

pub open spec fn kind_lines(mask: u64, kinds: Seq<EventKind>) -> Seq<char>
    decreases kinds.len(),
{
    if kinds.len() == 0 {
        Seq::empty()
    } else {
        kind_lines(mask, kinds.drop_last()) + kind_line(mask, kinds.last())
    }
}

/// What `event-log list` shows for a mask.
pub open spec fn mask_text(mask: u64) -> Seq<char> {
    "event-log mask: 0x"@ + hex(mask as int) + "\nenabled events:\n"@ + kind_lines(
        mask,
        all_kinds(),
    )
}

pub open spec fn mask_failure(e: Seq<char>) -> OutcomeView {
    fails("Failed to get event mask: "@ + e)
}

/// The outcome of `event-log list` for an answer.
pub open spec fn list_outcome(mask: Result<u64, Seq<char>>) -> OutcomeView {
    match mask {
        Err(e) => mask_failure(e),
        Ok(m) => prints(mask_text(m)),
    }
}

fn push_kind(s: &mut String, mask: u64, kind: EventKind)
    ensures
        final(s)@ == old(s)@ + kind_line(mask, kind),
{
    if event_enabled(Some(mask), kind) {
        s.append("  [x] ");
    } else {
        s.append("  [ ] ");
    }
    s.append(event_name(kind));
    s.append("\n");
    assert(s@ =~= old(s)@ + kind_line(mask, kind));
}

fn format_mask(mask: u64) -> (r: String)
    ensures
        r@ == mask_text(mask),
{
    let mut s = "event-log mask: 0x".to_string();
    s.append(hex_text(mask).as_str());
    s.append("\nenabled events:\n");
    let ghost head = s@;
    let kinds = event_kinds();
    let mut i: usize = 0;
    assert(kinds@.take(0) =~= Seq::empty());
    assert(s@ =~= head + kind_lines(mask, kinds@.take(0)));
    while i < kinds.len()
        invariant
            i <= kinds@.len(),
            s@ == head + kind_lines(mask, kinds@.take(i as int)),
        decreases kinds@.len() - i,
    {
        assert(kinds@.take(i + 1).drop_last() =~= kinds@.take(i as int));
        push_kind(&mut s, mask, kinds[i]);
        assert(s@ =~= head + kind_lines(mask, kinds@.take(i + 1)));
        i += 1;
    }
    assert(kinds@.take(i as int) =~= kinds@);
    s
}

/// The outcome of `event-log list` for an answer.
pub fn show_mask(mask: Result<u64, String>) -> (r: Outcome)
    ensures
        r@ == list_outcome(plain(mask)),
{
    match mask {
        Err(e) => fail_with("Failed to get event mask: ", e.as_str()),
        Ok(m) => print(format_mask(m)),
    }
}

pub open spec fn event_list_ran(
    before: Seq<Exchange>,
    after: Seq<Exchange>,
    r: OutcomeView,
) -> bool {
    &&& asked(before, CommandView::EventMaskGet, after)
    &&& r == list_outcome(mask_in(answer(after)))
}

pub fn event_log_list<D: Daemon>(d: &mut Channel<D>) -> (r: Outcome)
    ensures
        final(d).daemon() == old(d).daemon(),
        event_list_ran(old(d).log(), final(d).log(), r@),
{
    let mask = event_mask_get(d);
    show_mask(mask)
}

/// The outcome of `event-log reset` for an answer.
pub open spec fn reset_outcome(reply: Result<Seq<char>, Seq<char>>) -> OutcomeView {
    match reply {
        Err(e) => fails("Failed to reset events: "@ + e),
        Ok(_) => prints("events reset\n"@),
    }
}

pub open spec fn event_reset_ran(
    before: Seq<Exchange>,
    after: Seq<Exchange>,
    r: OutcomeView,
) -> bool {
    &&& asked(before, CommandView::ConfigReload { path: None }, after)
    &&& r == reset_outcome(success_text(answer(after)))
}

pub fn event_log_reset<D: Daemon>(d: &mut Channel<D>) -> (r: Outcome)
    ensures
        final(d).daemon() == old(d).daemon(),
        event_reset_ran(old(d).log(), final(d).log(), r@),
{
    let reply = config_reload(d, None);
    match reply {
        Err(e) => fail_with("Failed to reset events: ", e.as_str()),
        Ok(_) => print("events reset\n".to_string()),
    }
}

/// The outcome of a change of the mask for an answer.
pub open spec fn set_outcome(
    reply: Result<Seq<char>, Seq<char>>,
    kind: EventKind,
    enable: bool,
) -> OutcomeView {
    match reply {
        Err(e) => fails("Failed to set event mask: "@ + e),
        Ok(_) => prints(
            (if enable {
                "enabled event-log: "@
            } else {
                "disabled event-log: "@
            }) + kind_name(kind) + "\n"@,
        ),
    }
}

/// The outcome of a change of the mask for an answer.
pub fn show_set(reply: Result<String, String>, kind: EventKind, enable: bool) -> (r: Outcome)
    ensures
        r@ == set_outcome(told(reply), kind, enable),
{
    match reply {
        Err(e) => fail_with("Failed to set event mask: ", e.as_str()),
        Ok(_) => {
            let mut s = if enable {
                "enabled event-log: ".to_string()
            } else {
                "disabled event-log: ".to_string()
            };
            s.append(event_name(kind));
            s.append("\n");
            print(s)
        },
    }
}

/// The mask was read and written back with the bit of the kind changed; nothing
/// is written where it could not be read.
pub open spec fn mask_changed(
    before: Seq<Exchange>,
    kind: EventKind,
    enable: bool,
    after: Seq<Exchange>,
    r: OutcomeView,
) -> bool {
    ||| {
        &&& asked(before, CommandView::EventMaskGet, after)
        &&& mask_in(answer(after)) matches Err(e)
        &&& r == mask_failure(e)
    }
    ||| {
        let middle = after.drop_last();
        &&& asked(before, CommandView::EventMaskGet, middle)
        &&& mask_in(answer(middle)) matches Ok(mask)
        &&& asked(
            middle,
            CommandView::EventMaskSet { mask: with_kind(mask, kind, enable) },
            after,
        )
        &&& r == set_outcome(success_text(answer(after)), kind, enable)
    }
}

/// A change of the mask for the kind that a text names.
pub open spec fn event_set_ran(
    before: Seq<Exchange>,
    name: Seq<char>,
    enable: bool,
    after: Seq<Exchange>,
    r: OutcomeView,
) -> bool {
    match parsed_kind(name, lowercase_text(name)) {
        Err(e) => after == before && r == fails(e),
        Ok(kind) => mask_changed(before, kind, enable, after, r),
    }
}

pub fn event_log_set<D: Daemon>(d: &mut Channel<D>, name: &str, enable: bool) -> (r: Outcome)
    ensures
        final(d).daemon() == old(d).daemon(),
        event_set_ran(old(d).log(), name@, enable, final(d).log(), r@),
{
    let kind = match parse_event_kind(name) {
        Ok(k) => k,
        Err(e) => {
            return fail(e);
        },
    };
    let current = event_mask_get(d);
    match current {
        Err(e) => fail_with("Failed to get event mask: ", e.as_str()),
        Ok(mask) => {
            let new_mask: u64 = change_mask(mask, kind, enable);
            let reply = event_mask_set(d, new_mask);
            let r = show_set(reply, kind, enable);
            r
        },
    }
}

/// `event-log` with its arguments: a kind alone is enabled.
pub open spec fn event_log_ran(
    before: Seq<Exchange>,
    args: Seq<Seq<char>>,
    after: Seq<Exchange>,
    r: OutcomeView,
) -> bool {
    if args.len() == 0 {
        &&& after == before
        &&& r == fails("usage: ebpf-ctl event-log <list|enable|disable|reset> [<kind>]"@)
    } else if args[0] == "list"@ {
        event_list_ran(before, after, r)
    } else if args[0] == "reset"@ {
        event_reset_ran(before, after, r)
    } else if args[0] == "enable"@ {
        if args.len() < 2 {
            after == before && r == fails("usage: ebpf-ctl event-log enable <kind>"@)
        } else {
            event_set_ran(before, args[1], true, after, r)
        }
    } else if args[0] == "disable"@ {
        if args.len() < 2 {
            after == before && r == fails("usage: ebpf-ctl event-log disable <kind>"@)
        } else {
            event_set_ran(before, args[1], false, after, r)
        }
    } else {
        event_set_ran(before, args[0], true, after, r)
    }
}

pub fn event_log_cmd<D: Daemon>(d: &mut Channel<D>, args: &Vec<String>) -> (r: Outcome)
    ensures
        final(d).daemon() == old(d).daemon(),
        event_log_ran(old(d).log(), texts(args@), final(d).log(), r@),
{
    if args.len() == 0 {
        return fail_str("usage: ebpf-ctl event-log <list|enable|disable|reset> [<kind>]");
    }
    assert(texts(args@)[0] == args@[0]@);
    let name = args[0].as_str();
    if same(name, "list") {
        event_log_list(d)
    } else if same(name, "reset") {
        event_log_reset(d)
    } else if same(name, "enable") {
        if args.len() < 2 {
            return fail_str("usage: ebpf-ctl event-log enable <kind>");
        }
        assert(texts(args@)[1] == args@[1]@);
        event_log_set(d, args[1].as_str(), true)
    } else if same(name, "disable") {
        if args.len() < 2 {
            return fail_str("usage: ebpf-ctl event-log disable <kind>");
        }
        assert(texts(args@)[1] == args@[1]@);
        event_log_set(d, args[1].as_str(), false)
    } else {
        event_log_set(d, name, true)
    }
}

} // verus!
