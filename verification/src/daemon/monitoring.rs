//! The events that the packet program publishes.
use vstd::prelude::*;
use vstd::string::StringExecFns;

use crate::bytes::{from_le16, from_le32, from_le64, read_le16, read_le32, read_le64};
use crate::daemon::host::{Host, MapRecord, ProgRecord};
use crate::display::{format_ip, ip_text};
use crate::maps::{Event, EventKind, FlowKey};
use crate::packet::read_addr16;
use crate::text::{decimal, push_decimal, same};

verus! {

// ---- Reading an event ----

/// The kind of a number.
pub open spec fn kind_of(n: u32) -> Option<EventKind> {
    match n {
        1 => Some(EventKind::PacketDrop),
        2 => Some(EventKind::RateLimited),
        3 => Some(EventKind::ConntrackMiss),
        4 => Some(EventKind::BackendSelected),
        5 => Some(EventKind::SlowPath),
        6 => Some(EventKind::ServiceMatched),
        7 => Some(EventKind::VlanDetected),
        8 => Some(EventKind::PacketAllow),
        _ => None,
    }
}

/// The kind of a number.
pub fn event_kind_from_u32(n: u32) -> (r: Option<EventKind>)
    ensures
        r == kind_of(n),
{
    match n {
        1 => Some(EventKind::PacketDrop),
        2 => Some(EventKind::RateLimited),
        3 => Some(EventKind::ConntrackMiss),
        4 => Some(EventKind::BackendSelected),
        5 => Some(EventKind::SlowPath),
        6 => Some(EventKind::ServiceMatched),
        7 => Some(EventKind::VlanDetected),
        8 => Some(EventKind::PacketAllow),
        _ => None,
    }
}

/// A kind is found again by its number.
pub proof fn event_numbers_are_inverse(kind: EventKind, n: u32)
    ensures
        kind_of(kind.spec_code()) == Some(kind),
        kind_of(n) matches Some(k) ==> k.spec_code() == n,
{
}

/// The event has the fields of the record `d`.
pub open spec fn event_in(e: Event, d: Seq<u8>) -> bool {
    &&& e.ts_ns == from_le64(d)
    &&& Some(e.kind) == kind_of(from_le32(d.skip(8)))
    &&& e.ifindex == from_le32(d.skip(12))
    &&& e.flow.src_addr@ == d.subrange(16, 32)
    &&& e.flow.dst_addr@ == d.subrange(32, 48)
    &&& e.flow.src_port == from_le16(d.skip(48))
    &&& e.flow.dst_port == from_le16(d.skip(50))
    &&& e.flow.family == d[52]
    &&& e.flow.ip_proto == d[53]
    &&& e.aux0 == from_le64(d.skip(56))
    &&& e.aux1 == from_le64(d.skip(64))
}

/// Reads an event record. Too few bytes, or a kind that there is not, are no
/// event.
pub fn parse_event(data: &[u8]) -> (r: Option<Event>)
    ensures
        match r {
            Some(e) => data@.len() >= 72 && event_in(e, data@),
            None => data@.len() < 72 || kind_of(from_le32(data@.skip(8))) is None,
        },
{
    if data.len() < 72 {
        return None;
    }
    assert(data@.skip(0) =~= data@);
    match event_kind_from_u32(read_le32(data, 8)) {
        None => None,
        Some(kind) => Some(
            Event {
                ts_ns: read_le64(data, 0),
                kind,
                ifindex: read_le32(data, 12),
                flow: FlowKey {
                    src_addr: read_addr16(data, 16),
                    dst_addr: read_addr16(data, 32),
                    src_port: read_le16(data, 48),
                    dst_port: read_le16(data, 50),
                    family: data[52],
                    ip_proto: data[53],
                },
                aux0: read_le64(data, 56),
                aux1: read_le64(data, 64),
            },
        ),
    }
}

// ---- Describing an event ----

/// The fields of a log line.
#[derive(Debug)]
pub struct EventLine {
    pub timestamp_ns: u64,
    pub event_kind: String,
    pub ifindex: u32,
    pub src: String,
    pub dst: String,
    pub src_port: u16,
    pub dst_port: u16,
    pub protocol: String,
    pub aux0: u64,
    pub aux1: u64,
}

pub open spec fn protocol_name(n: u8) -> Seq<char> {
    match n {
        6 => "TCP"@,
        17 => "UDP"@,
        1 => "ICMP"@,
        58 => "ICMPv6"@,
        _ => "OTHER"@,
    }
}

pub open spec fn kind_name(kind: EventKind) -> Seq<char> {
    match kind {
        EventKind::PacketDrop => "PacketDrop"@,
        EventKind::RateLimited => "RateLimited"@,
        EventKind::ConntrackMiss => "ConntrackMiss"@,
        EventKind::BackendSelected => "BackendSelected"@,
        EventKind::SlowPath => "SlowPath"@,
        EventKind::ServiceMatched => "ServiceMatched"@,
        EventKind::VlanDetected => "VlanDetected"@,
        EventKind::PacketAllow => "PacketAllow"@,
    }
}

fn protocol_of(n: u8) -> (r: &'static str)
    ensures
        r@ == protocol_name(n),
{
    match n {
        6 => "TCP",
        17 => "UDP",
        1 => "ICMP",
        58 => "ICMPv6",
        _ => "OTHER",
    }
}

/// The name of a kind of event.
pub fn event_name(kind: EventKind) -> (r: &'static str)
    ensures
        r@ == kind_name(kind),
{
    match kind {
        EventKind::PacketDrop => "PacketDrop",
        EventKind::RateLimited => "RateLimited",
        EventKind::ConntrackMiss => "ConntrackMiss",
        EventKind::BackendSelected => "BackendSelected",
        EventKind::SlowPath => "SlowPath",
        EventKind::ServiceMatched => "ServiceMatched",
        EventKind::VlanDetected => "VlanDetected",
        EventKind::PacketAllow => "PacketAllow",
    }
}

/// The log line of an event.
pub fn log_event(event: &Event) -> (r: EventLine)
    ensures
        r.timestamp_ns == event.ts_ns,
        r.event_kind@ == kind_name(event.kind),
        r.ifindex == event.ifindex,
        r.src@ == ip_text(event.flow.src_addr@, event.flow.family),
        r.dst@ == ip_text(event.flow.dst_addr@, event.flow.family),
        r.src_port == event.flow.src_port,
        r.dst_port == event.flow.dst_port,
        r.protocol@ == protocol_name(event.flow.ip_proto),
        r.aux0 == event.aux0,
        r.aux1 == event.aux1,
{
    EventLine {
        timestamp_ns: event.ts_ns,
        event_kind: event_name(event.kind).to_string(),
        ifindex: event.ifindex,
        src: format_ip(&event.flow.src_addr, event.flow.family),
        dst: format_ip(&event.flow.dst_addr, event.flow.family),
        src_port: event.flow.src_port,
        dst_port: event.flow.dst_port,
        protocol: protocol_of(event.flow.ip_proto).to_string(),
        aux0: event.aux0,
        aux1: event.aux1,
    }
}

// ---- Finding the ring buffer ----

/// The ring buffer of the events.
#[derive(Clone, Copy, Debug, PartialEq, Eq, Structural)]
pub struct EventsMap {
    pub id: u32,
    pub size: usize,
}

/// A map is the ring buffer of the events.
pub open spec fn is_events(m: MapRecord) -> bool {
    m.ringbuf && m.name is Some && m.name->0@ == "events"@
}

fn is_events_map(m: &MapRecord) -> (r: bool)
    ensures
        r == is_events(*m),
{
    if !m.ringbuf {
        return false;
    }
    match &m.name {
        Some(n) => same(n.as_str(), "events"),
        None => false,
    }
}

/// The ring buffer that opening a map found.
pub open spec fn opened_as(id: u32, m: Option<MapRecord>) -> Option<EventsMap> {
    match m {
        Some(m) => if is_events(m) {
            Some(EventsMap { id, size: m.max_entries as usize })
        } else {
            None
        },
        None => None,
    }
}

/// The map was opened, and was the ring buffer or not.
pub open spec fn inspected<H: Host>(h: &H, id: u32, r: Option<EventsMap>) -> bool {
    exists|m: Option<MapRecord>|
        #[trigger] call_ensures(H::map_by_id, (h, id), m) && r == opened_as(id, m)
}

/// The map of a number, if it is the ring buffer of the events.
pub fn events_map_from_id<H: Host>(h: &H, map_id: u32) -> (r: Option<EventsMap>)
    ensures
        inspected(h, map_id, r),
{
    let m = h.map_by_id(map_id);
    assert(call_ensures(H::map_by_id, (h, map_id), m));
    match m {
        Some(record) => if is_events_map(&record) {
            Some(EventsMap { id: map_id, size: record.max_entries as usize })
        } else {
            None
        },
        None => None,
    }
}

/// The first ring buffer of the events among the maps.
pub open spec fn first_events(maps: Seq<MapRecord>) -> Option<EventsMap>
    decreases maps.len(),
{
    if maps.len() == 0 {
        None
    } else {
        match first_events(maps.drop_last()) {
            Some(e) => Some(e),
            None => if is_events(maps.last()) {
                Some(EventsMap { id: maps.last().id, size: maps.last().max_entries as usize })
            } else {
                None
            },
        }
    }
}

proof fn lemma_first_events(maps: Seq<MapRecord>, n: int)
    requires
        0 <= n <= maps.len(),
        first_events(maps.take(n)) is Some,
    ensures
        first_events(maps) == first_events(maps.take(n)),
    decreases maps.len() - n,
{
    if n == maps.len() {
        assert(maps.take(n) =~= maps);
    } else {
        assert(maps.take(n + 1).drop_last() =~= maps.take(n));
        lemma_first_events(maps, n + 1);
    }
}

/// The ring buffer of the events among the maps.
pub fn find_events(maps: &Vec<MapRecord>) -> (r: Option<EventsMap>)
    ensures
        r == first_events(maps@),
{
    let mut i: usize = 0;
    assert(maps@.take(0) =~= Seq::empty());
    while i < maps.len()
        invariant
            i <= maps@.len(),
            first_events(maps@.take(i as int)) is None,
        decreases maps@.len() - i,
    {
        assert(maps@.take(i + 1).drop_last() =~= maps@.take(i as int));
        if is_events_map(&maps[i]) {
            let e = EventsMap { id: maps[i].id, size: maps[i].max_entries as usize };
            proof {
                assert(first_events(maps@.take(i + 1)) == Some(e));
                lemma_first_events(maps@, i + 1);
            }
            return Some(e);
        }
        i += 1;
    }
    assert(maps@.take(i as int) =~= maps@);
    None
}

/// The loaded maps were listed and searched.
pub open spec fn searched_by_name<H: Host>(h: &H, r: Option<EventsMap>) -> bool {
    exists|maps: Vec<MapRecord>|
        #[trigger] call_ensures(H::maps, (h,), maps) && r == first_events(maps@)
}

/// The ring buffer of the events among all loaded maps.
pub fn events_map_by_name<H: Host>(h: &H) -> (r: Option<EventsMap>)
    ensures
        searched_by_name(h, r),
{
    let maps = h.maps();
    assert(call_ensures(H::maps, (h,), maps));
    find_events(&maps)
}

/// The numbers of the maps of the chosen programs, in order.
pub open spec fn map_ids_of(progs: Seq<ProgRecord>, p: spec_fn(ProgRecord) -> bool) -> Seq<u32>
    decreases progs.len(),
{
    if progs.len() == 0 {
        Seq::empty()
    } else {
        let before = map_ids_of(progs.drop_last(), p);
        if p(progs.last()) {
            before + progs.last().map_ids@
        } else {
            before
        }
    }
}

pub open spec fn with_id(id: u32) -> spec_fn(ProgRecord) -> bool {
    |p: ProgRecord| p.id == id
}

pub open spec fn xdp_only() -> spec_fn(ProgRecord) -> bool {
    |p: ProgRecord| p.xdp
}

fn push_ids(out: &mut Vec<u32>, ids: &Vec<u32>)
    ensures
        final(out)@ == old(out)@ + ids@,
{
    let mut i: usize = 0;
    assert(old(out)@ + ids@.take(0) =~= old(out)@);
    while i < ids.len()
        invariant
            i <= ids@.len(),
            out@ == old(out)@ + ids@.take(i as int),
        decreases ids@.len() - i,
    {
        out.push(ids[i]);
        i += 1;
        assert(ids@.take(i as int) =~= ids@.take(i - 1).push(ids@[i - 1]));
    }
    assert(ids@.take(i as int) =~= ids@);
}

fn map_ids_with_id(progs: &Vec<ProgRecord>, id: u32) -> (r: Vec<u32>)
    ensures
        r@ == map_ids_of(progs@, with_id(id)),
{
    let mut out: Vec<u32> = Vec::new();
    let mut i: usize = 0;
    assert(progs@.take(0) =~= Seq::empty());
    while i < progs.len()
        invariant
            i <= progs@.len(),
            out@ == map_ids_of(progs@.take(i as int), with_id(id)),
        decreases progs@.len() - i,
    {
        assert(progs@.take(i + 1).drop_last() =~= progs@.take(i as int));
        if progs[i].id == id {
            push_ids(&mut out, &progs[i].map_ids);
        }
        i += 1;
    }
    assert(progs@.take(i as int) =~= progs@);
    out
}

fn map_ids_of_xdp(progs: &Vec<ProgRecord>) -> (r: Vec<u32>)
    ensures
        r@ == map_ids_of(progs@, xdp_only()),
{
    let mut out: Vec<u32> = Vec::new();
    let mut i: usize = 0;
    assert(progs@.take(0) =~= Seq::empty());
    while i < progs.len()
        invariant
            i <= progs@.len(),
            out@ == map_ids_of(progs@.take(i as int), xdp_only()),
        decreases progs@.len() - i,
    {
        assert(progs@.take(i + 1).drop_last() =~= progs@.take(i as int));
        if progs[i].xdp {
            push_ids(&mut out, &progs[i].map_ids);
        }
        i += 1;
    }
    assert(progs@.take(i as int) =~= progs@);
    out
}

/// The maps were opened in order until one was the ring buffer.
pub open spec fn searched_in<H: Host>(h: &H, ids: Seq<u32>, r: Option<EventsMap>) -> bool {
    match r {
        Some(e) => exists|n: int|
            {
                &&& 0 <= n < ids.len()
                &&& inspected(h, #[trigger] ids[n], Some(e))
                &&& forall|i: int| 0 <= i < n ==> inspected(h, #[trigger] ids[i], None)
            },
        None => forall|i: int| 0 <= i < ids.len() ==> inspected(h, #[trigger] ids[i], None),
    }
}

fn search_ids<H: Host>(h: &H, ids: &Vec<u32>) -> (r: Option<EventsMap>)
    ensures
        searched_in(h, ids@, r),
{
    let mut i: usize = 0;
    while i < ids.len()
        invariant
            i <= ids@.len(),
            forall|j: int| 0 <= j < i ==> inspected(h, #[trigger] ids@[j], None),
        decreases ids@.len() - i,
    {
        let e = events_map_from_id(h, ids[i]);
        if e.is_some() {
            assert(inspected(h, ids@[i as int], e));
            return e;
        }
        i += 1;
    }
    None
}

/// A number with its sign.
pub open spec fn signed(n: i32) -> Seq<char> {
    if n < 0 {
        "-"@ + decimal(-(n as int))
    } else {
        decimal(n as int)
    }
}

pub(crate) fn push_signed(s: &mut String, n: i32)
    ensures
        final(s)@ == old(s)@ + signed(n),
{
    if n < 0 {
        s.append("-");
        push_decimal(s, (-(n as i64)) as u64);
        assert(s@ =~= old(s)@ + signed(n));
    } else {
        push_decimal(s, n as u64);
    }
}

/// The number of a program as the kernel counts it.
pub open spec fn prog_number(n: i32) -> u32 {
    if n < 0 {
        (n + 0x1_0000_0000) as u32
    } else {
        n as u32
    }
}

fn program_number(n: i32) -> (r: u32)
    ensures
        r == prog_number(n),
{
    if n < 0 {
        (n as i64 + 0x1_0000_0000) as u32
    } else {
        n as u32
    }
}

/// The maps of the program were searched, and where none was the ring buffer,
/// all loaded maps.
pub open spec fn found_for_prog<H: Host>(h: &H, prog_id: i32, r: Option<EventsMap>) -> bool {
    exists|progs: Vec<ProgRecord>|
        {
            &&& #[trigger] call_ensures(H::programs, (h,), progs)
            &&& {
                let ids = map_ids_of(progs@, with_id(prog_number(prog_id)));
                ||| r is Some && searched_in(h, ids, r)
                ||| searched_in(h, ids, None) && searched_by_name(h, r)
            }
        }
}

/// A ring buffer, or a message.
pub open spec fn events_view(r: Result<EventsMap, String>) -> Result<EventsMap, Seq<char>> {
    match r {
        Ok(e) => Ok(e),
        Err(m) => Err(m@),
    }
}

/// A ring buffer that was found, or else a message.
pub open spec fn or_message(found: Option<EventsMap>, message: Seq<char>) -> Result<
    EventsMap,
    Seq<char>,
> {
    match found {
        Some(e) => Ok(e),
        None => Err(message),
    }
}

/// The ring buffer of the events of a program.
pub fn get_events_map_for_prog<H: Host>(h: &H, prog_id: i32) -> (r: Result<EventsMap, String>)
    ensures
        exists|found: Option<EventsMap>|
            #[trigger] found_for_prog(h, prog_id, found) && events_view(r) == or_message(
                found,
                "no 'events' ringbuf map found for program id "@ + signed(prog_id),
            ),
{
    let progs = h.programs();
    assert(call_ensures(H::programs, (h,), progs));
    let ids = map_ids_with_id(&progs, program_number(prog_id));
    let first = search_ids(h, &ids);
    if let Some(e) = first {
        assert(found_for_prog(h, prog_id, Some(e)));
        return Ok(e);
    }
    let second = events_map_by_name(h);
    assert(found_for_prog(h, prog_id, second));
    match second {
        Some(e) => Ok(e),
        None => {
            let mut m = "no 'events' ringbuf map found for program id ".to_string();
            push_signed(&mut m, prog_id);
            Err(m)
        },
    }
}

/// All loaded maps were searched, and where none was the ring buffer, the maps
/// of the XDP programs.
pub open spec fn found_anywhere<H: Host>(h: &H, r: Option<EventsMap>) -> bool {
    ||| r is Some && searched_by_name(h, r)
    ||| searched_by_name(h, None) && found_in_xdp(h, r)
}

pub open spec fn found_in_xdp<H: Host>(h: &H, r: Option<EventsMap>) -> bool {
    exists|progs: Vec<ProgRecord>|
        #[trigger] call_ensures(H::programs, (h,), progs) && searched_in(
            h,
            map_ids_of(progs@, xdp_only()),
            r,
        )
}

pub open spec fn no_events_map() -> Seq<char> {
    "Could not get events map. Use --prog-id <id> or ensure an XDP program is loaded"@
}

/// The ring buffer of the events of any program.
pub fn get_events_map_via_libbpf<H: Host>(h: &H) -> (r: Result<EventsMap, String>)
    ensures
        exists|found: Option<EventsMap>|
            #[trigger] found_anywhere(h, found) && events_view(r) == or_message(
                found,
                no_events_map(),
            ),
{
    let first = events_map_by_name(h);
    if let Some(e) = first {
        assert(found_anywhere(h, Some(e)));
        return Ok(e);
    }
    let progs = h.programs();
    assert(call_ensures(H::programs, (h,), progs));
    let ids = map_ids_of_xdp(&progs);
    let second = search_ids(h, &ids);
    assert(found_in_xdp(h, second));
    assert(found_anywhere(h, second));
    match second {
        Some(e) => Ok(e),
        None => Err(
            "Could not get events map. Use --prog-id <id> or ensure an XDP program is loaded"
                .to_string(),
        ),
    }
}

/// The ring buffer to watch: that of the program named, else of any.
pub fn choose_events_map<H: Host>(h: &H, prog_id: Option<i32>) -> (r: Result<EventsMap, String>)
    ensures
        match prog_id {
            Some(id) => exists|found: Option<EventsMap>|
                #[trigger] found_for_prog(h, id, found) && events_view(r) == or_message(
                    found,
                    "no 'events' ringbuf map found for program id "@ + signed(id),
                ),
            None => exists|found: Option<EventsMap>|
                #[trigger] found_anywhere(h, found) && events_view(r) == or_message(
                    found,
                    no_events_map(),
                ),
        },
{
    match prog_id {
        Some(id) => get_events_map_for_prog(h, id),
        None => get_events_map_via_libbpf(h),
    }
}

} // verus!
