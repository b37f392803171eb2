//! What is shown of events and counters, and where the events come from.
use vstd::prelude::*;

use crate::ctl::monitor::tool_counter_text;
use crate::daemon::host::{Host, MapRecord, ProgRecord};
use crate::daemon::kernel::Cell;
use crate::daemon::maps::{cell_sum, counter_numbers_are_inverse, counter_rows};
use crate::daemon::monitoring::{
    first_events, found_anywhere, found_for_prog, inspected, log_event, map_ids_of, parse_event,
    prog_number, searched_by_name, searched_in, with_id, xdp_only, EventLine, EventsMap,
};
use crate::listings::four_numbers;
use crate::maps::{CounterId, Event, EventKind, FlowKey};
use crate::requests::{bit, kind_bit};
use crate::trail::Deed;
use crate::xdp::{emitted, Tables};

verus! {

// ---- Events ----

/// The name of a kind of event by its number.
pub open spec fn event_names() -> Seq<Seq<char>> {
    seq![
        "PacketDrop"@,
        "RateLimited"@,
        "ConntrackMiss"@,
        "BackendSelected"@,
        "SlowPath"@,
        "ServiceMatched"@,
        "VlanDetected"@,
        "PacketAllow"@,
    ]
}

/// The line of an event says what its record holds: the name of its kind, the
/// interface, the addresses in front of their ports, and the protocol.
pub proof fn lines_say_what_the_record_holds(data: &[u8], e: Event, line: EventLine)
    requires
        call_ensures(parse_event, (data,), Some(e)),
        call_ensures(log_event, (&e,), line),
    ensures
        data@.len() >= 72,
        1 <= data@[8] <= 8 && data@[9] == 0 && data@[10] == 0 && data@[11] == 0,
        line.event_kind@ == event_names()[data@[8] - 1],
        line.ifindex == data@[12] + 256 * data@[13] + 65536 * data@[14] + 16777216 * data@[15],
        line.src_port == data@[48] + 256 * data@[49],
        line.dst_port == data@[50] + 256 * data@[51],
        data@[52] == 4 ==> line.src@ == four_numbers(data@[28], data@[29], data@[30], data@[31]),
        data@[52] == 4 ==> line.dst@ == four_numbers(data@[44], data@[45], data@[46], data@[47]),
        data@[53] == 6 ==> line.protocol@ == "TCP"@,
        data@[53] == 17 ==> line.protocol@ == "UDP"@,
        data@[53] == 1 ==> line.protocol@ == "ICMP"@,
        data@[53] == 58 ==> line.protocol@ == "ICMPv6"@,
        data@[53] != 6 && data@[53] != 17 && data@[53] != 1 && data@[53] != 58 ==> line.protocol@
            == "OTHER"@,
{
    let d = data@;
    assert(e.flow.src_addr@[12] == d[28] && e.flow.src_addr@[13] == d[29]);
    assert(e.flow.src_addr@[14] == d[30] && e.flow.src_addr@[15] == d[31]);
    assert(e.flow.dst_addr@[12] == d[44] && e.flow.dst_addr@[13] == d[45]);
    assert(e.flow.dst_addr@[14] == d[46] && e.flow.dst_addr@[15] == d[47]);
    let kind = d[8] + 256 * d[9] + 65536 * d[10] + 16777216 * d[11];
    assert(1 <= kind <= 8);
}

/// An event is published exactly if the bit of its kind is set in the mask, or
/// there is no mask, and the buffer has room for its 72 bytes. What is published
/// has its kind, its interface and its flow.
pub proof fn the_mask_decides_what_is_published<T: Tables>(
    t: &T,
    ifindex: u32,
    flow: FlowKey,
    kind: EventKind,
    aux0: u64,
    aux1: u64,
    deeds: Seq<Deed>,
    mask: Option<u64>,
)
    requires
        emitted(t, ifindex, flow, kind, aux0, aux1, deeds),
        forall|m: Option<u64>| #[trigger] call_ensures(T::event_mask, (t,), m) ==> m == mask,
    ensures
        mask is Some && !bit(mask->0, kind_bit(kind)) ==> deeds.len() == 0,
        mask is None || bit(mask->0, kind_bit(kind)) ==> {
            &&& deeds.len() >= 1
            &&& deeds[0] matches Deed::Room { size, made } && size == 72 && deeds.len() == if made {
                2int
            } else {
                1
            }
            &&& deeds.len() == 2 ==> (deeds[1] matches Deed::Published { event } && event.kind
                == kind && event.ifindex == ifindex && event.flow == flow && event.aux0 == aux0
                && event.aux1 == aux1)
        },
{
    assert(kind_bit(kind) == kind.spec_code());
}

/// The map is a ring buffer with the name of the events.
pub open spec fn event_buffer(m: MapRecord) -> bool {
    m.ringbuf && (m.name matches Some(n) && n@ == "events"@)
}

/// The host knows the ring buffer, by its number or among its maps.
pub open spec fn known_buffer<H: Host>(h: &H, e: EventsMap) -> bool {
    ||| exists|m: MapRecord|
        {
            &&& #[trigger] call_ensures(H::map_by_id, (h, e.id), Some(m))
            &&& event_buffer(m)
            &&& e.size == m.max_entries
        }
    ||| exists|maps: Vec<MapRecord>, i: int|
        {
            &&& #[trigger] call_ensures(H::maps, (h,), maps)
            &&& 0 <= i < maps@.len()
            &&& (#[trigger] maps@[i]).id == e.id
            &&& event_buffer(maps@[i])
            &&& e.size == maps@[i].max_entries
        }
}

proof fn lemma_first_buffer(maps: Seq<MapRecord>) -> (i: int)
    requires
        first_events(maps) is Some,
    ensures
        0 <= i < maps.len(),
        event_buffer(maps[i]),
        first_events(maps)->0.id == maps[i].id,
        first_events(maps)->0.size == maps[i].max_entries,
    decreases maps.len(),
{
    let rest = maps.drop_last();
    if first_events(rest) is Some {
        let i = lemma_first_buffer(rest);
        assert(rest[i] == maps[i]);
        i
    } else {
        maps.len() - 1
    }
}

proof fn lemma_no_buffer(maps: Seq<MapRecord>, i: int)
    requires
        first_events(maps) is None,
        0 <= i < maps.len(),
    ensures
        !event_buffer(maps[i]),
    decreases maps.len(),
{
    if i < maps.len() - 1 {
        let rest = maps.drop_last();
        assert(rest[i] == maps[i]);
        lemma_no_buffer(rest, i);
    }
}

proof fn lemma_searched<H: Host>(h: &H, e: EventsMap)
    requires
        searched_by_name(h, Some(e)),
    ensures
        known_buffer(h, e),
{
    let maps = choose|maps: Vec<MapRecord>|
        #[trigger] call_ensures(H::maps, (h,), maps) && Some(e) == first_events(maps@);
    let i = lemma_first_buffer(maps@);
    assert(maps@[i].id == e.id);
}

proof fn lemma_inspected<H: Host>(h: &H, ids: Seq<u32>, e: EventsMap) -> (n: int)
    requires
        searched_in(h, ids, Some(e)),
    ensures
        0 <= n < ids.len(),
        ids[n] == e.id,
        known_buffer(h, e),
{
    let n = choose|n: int|
        {
            &&& 0 <= n < ids.len()
            &&& inspected(h, #[trigger] ids[n], Some(e))
            &&& forall|i: int| 0 <= i < n ==> inspected(h, #[trigger] ids[i], None)
        };
    assert(inspected(h, ids[n], Some(e)));
    n
}

/// Events are read from a ring buffer of their name and of no other map, with
/// the room that it has.
pub proof fn events_come_from_their_ring_buffer<H: Host>(h: &H, prog_id: i32, e: EventsMap)
    requires
        found_for_prog(h, prog_id, Some(e)) || found_anywhere(h, Some(e)),
    ensures
        known_buffer(h, e),
{
    if found_for_prog(h, prog_id, Some(e)) {
        let progs = choose|progs: Vec<ProgRecord>|
            {
                &&& #[trigger] call_ensures(H::programs, (h,), progs)
                &&& {
                    let ids = map_ids_of(progs@, with_id(prog_number(prog_id)));
                    ||| searched_in(h, ids, Some(e))
                    ||| searched_in(h, ids, None) && searched_by_name(h, Some(e))
                }
            };
        let ids = map_ids_of(progs@, with_id(prog_number(prog_id)));
        if searched_in(h, ids, Some(e)) {
            let n = lemma_inspected(h, ids, e);
        } else {
            lemma_searched(h, e);
        }
    } else if searched_by_name(h, Some(e)) {
        lemma_searched(h, e);
    } else {
        let progs = choose|progs: Vec<ProgRecord>|
            #[trigger] call_ensures(H::programs, (h,), progs) && searched_in(
                h,
                map_ids_of(progs@, xdp_only()),
                Some(e),
            );
        let n = lemma_inspected(h, map_ids_of(progs@, xdp_only()), e);
    }
}

proof fn lemma_ids_of(progs: Seq<ProgRecord>, p: spec_fn(ProgRecord) -> bool, i: int, j: int)
    requires
        0 <= i < progs.len(),
        p(progs[i]),
        0 <= j < progs[i].map_ids@.len(),
    ensures
        map_ids_of(progs, p).contains(progs[i].map_ids@[j]),
    decreases progs.len(),
{
    let rest = progs.drop_last();
    let before = map_ids_of(rest, p);
    let all = map_ids_of(progs, p);
    if i == progs.len() - 1 {
        assert(all[before.len() + j] == progs[i].map_ids@[j]);
    } else {
        assert(rest[i] == progs[i]);
        lemma_ids_of(rest, p, i, j);
        let k = choose|k: int| 0 <= k < before.len() && before[k] == progs[i].map_ids@[j];
        assert(all[k] == before[k]);
    }
}

proof fn lemma_ids_only(progs: Seq<ProgRecord>, p: spec_fn(ProgRecord) -> bool, n: int) -> (i: int)
    requires
        0 <= n < map_ids_of(progs, p).len(),
    ensures
        0 <= i < progs.len(),
        p(progs[i]),
        progs[i].map_ids@.contains(map_ids_of(progs, p)[n]),
    decreases progs.len(),
{
    if progs.len() == 0 {
        0
    } else {
        let rest = progs.drop_last();
        let before = map_ids_of(rest, p);
        if n < before.len() {
            let i = lemma_ids_only(rest, p, n);
            assert(rest[i] == progs[i]);
            i
        } else {
            assert(progs.last().map_ids@[n - before.len()] == map_ids_of(progs, p)[n]);
            progs.len() - 1
        }
    }
}

/// A program that has the ring buffer among its maps is read from one of its own
/// maps, whatever other buffers are loaded.
pub proof fn a_program_is_read_from_its_own_maps<H: Host>(
    h: &H,
    prog_id: i32,
    r: Option<EventsMap>,
    progs: Vec<ProgRecord>,
    i: int,
    j: int,
)
    requires
        found_for_prog(h, prog_id, r),
        prog_id >= 0,
        forall|v: Vec<ProgRecord>| #[trigger] call_ensures(H::programs, (h,), v) ==> v == progs,
        0 <= i < progs@.len(),
        progs@[i].id == prog_id,
        0 <= j < progs@[i].map_ids@.len(),
        forall|m: Option<MapRecord>| #[trigger]
            call_ensures(H::map_by_id, (h, progs@[i].map_ids@[j]), m) ==> m is Some && event_buffer(
                m->0,
            ),
    ensures
        r is Some,
        exists|k: int|
            0 <= k < progs@.len() && (#[trigger] progs@[k]).id == prog_id
                && progs@[k].map_ids@.contains(r->0.id),
{
    let ids = map_ids_of(progs@, with_id(prog_number(prog_id)));
    lemma_ids_of(progs@, with_id(prog_number(prog_id)), i, j);
    if searched_in(h, ids, None) {
        let k = choose|k: int| 0 <= k < ids.len() && ids[k] == progs@[i].map_ids@[j];
        assert(inspected(h, ids[k], None));
        assert(false);
    }
    let n = lemma_inspected(h, ids, r->0);
    let k = lemma_ids_only(progs@, with_id(prog_number(prog_id)), n);
    assert(progs@[k].id == prog_id);
}

/// Without a program to go by, the first ring buffer of the name among the loaded
/// maps is read.
pub proof fn any_loaded_buffer_is_found<H: Host>(
    h: &H,
    r: Option<EventsMap>,
    maps: Vec<MapRecord>,
    i: int,
)
    requires
        found_anywhere(h, r),
        forall|v: Vec<MapRecord>| #[trigger] call_ensures(H::maps, (h,), v) ==> v == maps,
        0 <= i < maps@.len(),
        event_buffer(maps@[i]),
        forall|k: int| 0 <= k < i ==> !event_buffer(#[trigger] maps@[k]),
    ensures
        r matches Some(e) && e.id == maps@[i].id && e.size == maps@[i].max_entries,
{
    if first_events(maps@) is None {
        lemma_no_buffer(maps@, i);
    }
    lemma_first_is(maps@, i);
}

proof fn lemma_first_is(maps: Seq<MapRecord>, i: int)
    requires
        0 <= i < maps.len(),
        event_buffer(maps[i]),
        forall|k: int| 0 <= k < i ==> !event_buffer(#[trigger] maps[k]),
    ensures
        first_events(maps) matches Some(e) && e.id == maps[i].id && e.size == maps[i].max_entries,
    decreases maps.len(),
{
    let rest = maps.drop_last();
    if i < rest.len() {
        assert forall|k: int| 0 <= k < i implies !event_buffer(#[trigger] rest[k]) by {
            assert(rest[k] == maps[k]);
        }
        assert(rest[i] == maps[i]);
        lemma_first_is(rest, i);
    } else if first_events(rest) is Some {
        let k = lemma_first_buffer(rest);
        assert(rest[k] == maps[k]);
    }
}

// ---- Counters ----

/// The names of the counters in the order of their numbers.
pub open spec fn counter_names() -> Seq<Seq<char>> {
    seq![
        "rx_packets"@,
        "rx_bytes"@,
        "passed"@,
        "dropped"@,
        "redirected"@,
        "conntrack_hit"@,
        "conntrack_miss"@,
        "acl_drop"@,
        "acl_allow"@,
        "acl_redirect"@,
        "rate_limited"@,
        "parse_error"@,
        "tc_fragment"@,
        "slow_path"@,
        "host_found"@,
        "rx_ipv4"@,
        "rx_ipv6"@,
        "rx_icmpv6"@,
        "rx_tcp"@,
        "rx_udp"@,
        "unknown"@,
        "backend_unavailable"@,
        "redirect_failed"@,
        "backend_selected"@,
        "service_miss"@,
        "service_hit"@,
        "rx_vlan"@,
    ]
}

/// The counter of a number is shown under the name of that number.
pub proof fn counters_are_shown_by_name(c: CounterId)
    ensures
        c.spec_code() < 27,
        tool_counter_text(c) == counter_names()[c.spec_code() as int],
{
}

/// The values of all CPUs add up: those of some and those of the others.
pub proof fn values_of_all_cpus_add_up(a: Seq<Vec<u8>>, b: Seq<Vec<u8>>)
    ensures
        cell_sum(a + b) == cell_sum(a) + cell_sum(b),
    decreases b.len(),
{
    if b.len() == 0 {
        assert(a + b =~= a);
    } else {
        assert((a + b).drop_last() =~= a + b.drop_last());
        values_of_all_cpus_add_up(a, b.drop_last());
    }
}

/// The value of one CPU is the number in its eight bytes, the low one first; one
/// of less than eight bytes is the number in its first four, or nothing.
pub proof fn one_value_is_its_number(v: Vec<u8>)
    ensures
        v@.len() >= 8 ==> cell_sum(seq![v]) == v@[0] + 256 * v@[1] + 65536 * v@[2] + 16777216
            * v@[3] + 4294967296 * (v@[4] + 256 * v@[5] + 65536 * v@[6] + 16777216 * v@[7]),
        4 <= v@.len() < 8 ==> cell_sum(seq![v]) == v@[0] + 256 * v@[1] + 65536 * v@[2] + 16777216
            * v@[3],
        v@.len() < 4 ==> cell_sum(seq![v]) == 0,
{
    reveal_with_fuel(cell_sum, 2);
    assert(seq![v].drop_last() =~= Seq::<Vec<u8>>::empty());
    if v@.len() >= 8 {
        let hi = v@.skip(4);
        assert(hi[0] == v@[4] && hi[1] == v@[5] && hi[2] == v@[6] && hi[3] == v@[7]);
    }
}

/// A cell of the counter map makes a row for the counter of the number in its
/// key, with the sum of its values; a number without a counter makes none.
pub proof fn cells_are_rows_of_their_counters(cells: Seq<Cell>, cell: Cell, c: CounterId)
    requires
        cell.key@.len() == 4,
        cell.values is Some,
        cell_sum(cell.values->0@) <= u64::MAX,
    ensures
        ({
            let number = cell.key@[0] + 256 * cell.key@[1] + 65536 * cell.key@[2] + 16777216
                * cell.key@[3];
            &&& number == c.spec_code() ==> counter_rows(cells.push(cell)) == counter_rows(
                cells,
            ).push((c, cell_sum(cell.values->0@) as u64))
            &&& number > 26 ==> counter_rows(cells.push(cell)) == counter_rows(cells)
        }),
{
    assert(cells.push(cell).drop_last() =~= cells);
    counter_numbers_are_inverse(c, 0);
}

} // verus!
