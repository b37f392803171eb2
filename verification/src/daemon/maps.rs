//! Rules, counters and the event mask in the kernel maps.
use vstd::prelude::*;
use vstd::string::StringExecFns;

use crate::acl_key::{
    parse_acl_addr, parsed_acl_addr, parsed_port, parsed_proto, zeros, AclAddr, AclRule, AddrView,
    Ipv4, Ipv6, PortSpec, Proto, RuleView,
};
use crate::bytes::{
    from_le16, from_le32, from_le64, le16, le32, le64, push_le16, push_le32, push_le64, read_le16,
    read_le32, read_le64,
};
use crate::daemon::kernel::{
    copy_bytes, looked_up, looked_up_in, map_delete, map_lookup, map_records, map_update,
    open_map_by_name, opened, read, seen, written, Cell, ErrorView, Kernel, MapError, Record,
    WriteView, CONNTRACK_MAP, COUNTERS_MAP, EVENT_MASK_MAP, L4_ACL_MAP, RATE_LIMIT_MAP,
    VLAN_ACL_MAP,
};
use crate::daemon::session::{open, Attempt, Session, Writer};
use crate::trace::{extends, lemma_push, lemma_same, lemma_since, since};
use crate::maps::{AclAction, CounterId, L4AclKey};
use crate::packet::read_addr16;
use crate::text::{
    chars_of, count_char, decimal, ends, ends_with, find, find_char, occurrences, push_decimal,
    rsplit_once, same, split_last, starts, starts_with, sub_text, told,
};

verus! {

// ---- Counters ----

/// The counter of a number.
pub open spec fn counter_of(v: u32) -> Option<CounterId> {
    match v {
        0 => Some(CounterId::RxPackets),
        1 => Some(CounterId::RxBytes),
        2 => Some(CounterId::Passed),
        3 => Some(CounterId::Dropped),
        4 => Some(CounterId::Redirected),
        5 => Some(CounterId::ConntrackHit),
        6 => Some(CounterId::ConntrackMiss),
        7 => Some(CounterId::AclDrop),
        8 => Some(CounterId::AclAllow),
        9 => Some(CounterId::AclRedirect),
        10 => Some(CounterId::RateLimited),
        11 => Some(CounterId::ParseError),
        12 => Some(CounterId::TcFragment),
        13 => Some(CounterId::SlowPath),
        14 => Some(CounterId::HostFound),
        15 => Some(CounterId::RxIpv4),
        16 => Some(CounterId::RxIpv6),
        17 => Some(CounterId::RxIcmpv6),
        18 => Some(CounterId::RxTcp),
        19 => Some(CounterId::RxUdp),
        20 => Some(CounterId::Unknown),
        21 => Some(CounterId::BackendUnavailable),
        22 => Some(CounterId::RedirectFailed),
        23 => Some(CounterId::BackendSelected),
        24 => Some(CounterId::ServiceMiss),
        25 => Some(CounterId::ServiceHit),
        26 => Some(CounterId::RxVlan),
        _ => None,
    }
}

/// The counter of a number.
pub fn counter_id_from_u32(v: u32) -> (r: Option<CounterId>)
    ensures
        r == counter_of(v),
{
    match v {
        0 => Some(CounterId::RxPackets),
        1 => Some(CounterId::RxBytes),
        2 => Some(CounterId::Passed),
        3 => Some(CounterId::Dropped),
        4 => Some(CounterId::Redirected),
        5 => Some(CounterId::ConntrackHit),
        6 => Some(CounterId::ConntrackMiss),
        7 => Some(CounterId::AclDrop),
        8 => Some(CounterId::AclAllow),
        9 => Some(CounterId::AclRedirect),
        10 => Some(CounterId::RateLimited),
        11 => Some(CounterId::ParseError),
        12 => Some(CounterId::TcFragment),
        13 => Some(CounterId::SlowPath),
        14 => Some(CounterId::HostFound),
        15 => Some(CounterId::RxIpv4),
        16 => Some(CounterId::RxIpv6),
        17 => Some(CounterId::RxIcmpv6),
        18 => Some(CounterId::RxTcp),
        19 => Some(CounterId::RxUdp),
        20 => Some(CounterId::Unknown),
        21 => Some(CounterId::BackendUnavailable),
        22 => Some(CounterId::RedirectFailed),
        23 => Some(CounterId::BackendSelected),
        24 => Some(CounterId::ServiceMiss),
        25 => Some(CounterId::ServiceHit),
        26 => Some(CounterId::RxVlan),
        _ => None,
    }
}

/// A counter is found again by its number, and a number that has a counter is
/// that counter's number.
pub proof fn counter_numbers_are_inverse(c: CounterId, v: u32)
    ensures
        counter_of(c.spec_code()) == Some(c),
        counter_of(v) matches Some(d) ==> d.spec_code() == v,
        counter_of(v) is Some <==> v <= 26,
{
}

/// The number in a counter value: eight bytes, or four in a short one.
pub open spec fn cell_value(v: Seq<u8>) -> int {
    if v.len() >= 8 {
        from_le64(v) as int
    } else if v.len() >= 4 {
        from_le32(v) as int
    } else {
        0
    }
}

/// The sum over all CPUs.
pub open spec fn cell_sum(values: Seq<Vec<u8>>) -> int
    decreases values.len(),
{
    if values.len() == 0 {
        0
    } else {
        cell_sum(values.drop_last()) + cell_value(values.last()@)
    }
}

/// The number in a counter key.
pub open spec fn cell_index(key: Seq<u8>) -> u32 {
    if key.len() >= 4 {
        from_le32(key)
    } else {
        0
    }
}

pub open spec fn cell_total(cell: Cell) -> int {
    match cell.values {
        Some(v) => cell_sum(v@),
        None => 0,
    }
}

/// No counter is larger than 64 bits hold.
pub open spec fn sums_fit(cells: Seq<Cell>) -> bool {
    forall|i: int| 0 <= i < cells.len() ==> cell_total(#[trigger] cells[i]) <= u64::MAX
}

/// The counters in the cells, in order; a key without a counter is left out.
pub open spec fn counter_rows(cells: Seq<Cell>) -> Seq<(CounterId, u64)>
    decreases cells.len(),
{
    if cells.len() == 0 {
        Seq::empty()
    } else {
        let before = counter_rows(cells.drop_last());
        match counter_of(cell_index(cells.last().key@)) {
            Some(c) => before.push((c, cell_total(cells.last()) as u64)),
            None => before,
        }
    }
}

fn value_of_cell(v: &Vec<u8>) -> (r: u64)
    ensures
        r == cell_value(v@),
{
    assert(v@.skip(0) =~= v@);
    if v.len() >= 8 {
        read_le64(v.as_slice(), 0)
    } else if v.len() >= 4 {
        read_le32(v.as_slice(), 0) as u64
    } else {
        0
    }
}

/// The sum over all CPUs, where 64 bits hold it.
pub fn sum_cells(values: &Vec<Vec<u8>>) -> (r: Option<u64>)
    ensures
        match r {
            Some(n) => n == cell_sum(values@),
            None => cell_sum(values@) > u64::MAX,
        },
{
    let mut sum: u64 = 0;
    let mut i: usize = 0;
    assert(values@.take(0) =~= Seq::empty());
    while i < values.len()
        invariant
            i <= values@.len(),
            sum == cell_sum(values@.take(i as int)),
        decreases values@.len() - i,
    {
        let v: u64 = value_of_cell(&values[i]);
        assert(values@.take(i + 1).drop_last() =~= values@.take(i as int));
        match sum.checked_add(v) {
            Some(s) => {
                sum = s;
            },
            None => {
                proof {
                    lemma_sum_grows(values@, i + 1);
                }
                return None;
            },
        }
        i += 1;
    }
    assert(values@.take(i as int) =~= values@);
    Some(sum)
}

proof fn lemma_sum_grows(values: Seq<Vec<u8>>, n: int)
    requires
        0 <= n <= values.len(),
    ensures
        cell_sum(values.take(n)) <= cell_sum(values),
    decreases values.len() - n,
{
    if n == values.len() {
        assert(values.take(n) =~= values);
    } else {
        assert(values.take(n + 1).drop_last() =~= values.take(n));
        lemma_sum_grows(values, n + 1);
    }
}

/// The counters in the cells of the counter map, where 64 bits hold every sum.
pub fn counters_in(cells: &Vec<Cell>) -> (r: Option<Vec<(CounterId, u64)>>)
    ensures
        match r {
            Some(rows) => sums_fit(cells@) && rows@ == counter_rows(cells@),
            None => !sums_fit(cells@),
        },
{
    let mut rows: Vec<(CounterId, u64)> = Vec::new();
    let mut i: usize = 0;
    assert(cells@.take(0) =~= Seq::empty());
    while i < cells.len()
        invariant
            i <= cells@.len(),
            forall|j: int| 0 <= j < i ==> cell_total(#[trigger] cells@[j]) <= u64::MAX,
            rows@ == counter_rows(cells@.take(i as int)),
        decreases cells@.len() - i,
    {
        assert(cells@.take(i + 1).drop_last() =~= cells@.take(i as int));
        let total: u64 = match &cells[i].values {
            Some(v) => match sum_cells(v) {
                Some(n) => n,
                None => {
                    assert(cell_total(cells@[i as int]) > u64::MAX);
                    return None;
                },
            },
            None => 0,
        };
        let idx: u32 = if cells[i].key.len() >= 4 {
            assert(cells@[i as int].key@.skip(0) =~= cells@[i as int].key@);
            read_le32(cells[i].key.as_slice(), 0)
        } else {
            0
        };
        match counter_id_from_u32(idx) {
            Some(c) => {
                rows.push((c, total));
            },
            None => {},
        }
        i += 1;
    }
    assert(cells@.take(i as int) =~= cells@);
    Some(rows)
}

pub open spec fn cells_view(r: Result<Vec<Cell>, MapError>) -> Result<Seq<Cell>, ErrorView> {
    match r {
        Ok(v) => Ok(v@),
        Err(e) => Err(e@),
    }
}

/// What was found for a key, one value or one for each CPU.
pub open spec fn found_values(r: Result<Option<Vec<Vec<u8>>>, MapError>) -> Result<
    Option<Seq<Vec<u8>>>,
    ErrorView,
> {
    match r {
        Ok(Some(v)) => Ok(Some(v@)),
        Ok(None) => Ok(None),
        Err(e) => Err(e@),
    }
}

/// The map `map` was asked for the values of a key on all CPUs.
pub open spec fn percpu_looked_up<K: Kernel>(
    k: &K,
    map: u32,
    key: Seq<u8>,
    r: Result<Option<Seq<Vec<u8>>>, ErrorView>,
) -> bool {
    exists|b: Vec<u8>, reply: Result<Option<Vec<Vec<u8>>>, MapError>|
        {
            &&& b@ == key
            &&& #[trigger] call_ensures(K::lookup_percpu, (k, map, b), reply)
            &&& r == found_values(reply)
        }
}

/// The map `map` was asked for the one value of a key.
pub open spec fn value_looked_up<K: Kernel>(
    k: &K,
    map: u32,
    key: Seq<u8>,
    r: Result<Option<Seq<Vec<u8>>>, ErrorView>,
) -> bool {
    exists|v: Result<Option<Vec<u8>>, ErrorView>|
        #[trigger] looked_up_in(k, map, key, v) && r == match v {
            Ok(Some(x)) => Ok(Some(seq![x])),
            Ok(None) => Ok(None),
            Err(e) => Err(e),
        }
}

/// The values of a key were looked up in the way that suits the map.
pub open spec fn values_looked_up<K: Kernel>(
    k: &K,
    map: u32,
    percpu: bool,
    key: Seq<u8>,
    r: Result<Option<Seq<Vec<u8>>>, ErrorView>,
) -> bool {
    if percpu {
        percpu_looked_up(k, map, key, r)
    } else {
        value_looked_up(k, map, key, r)
    }
}

pub open spec fn cell_values(c: Cell) -> Option<Seq<Vec<u8>>> {
    match c.values {
        Some(v) => Some(v@),
        None => None,
    }
}

/// A cell holds a key and what was found for it.
pub open spec fn cell_found<K: Kernel>(
    k: &K,
    map: u32,
    percpu: bool,
    key: Seq<u8>,
    cell: Cell,
) -> bool {
    cell.key@ == key && values_looked_up(k, map, percpu, key, Ok(cell_values(cell)))
}

/// A key was looked up without a failure.
pub open spec fn values_found<K: Kernel>(k: &K, map: u32, percpu: bool, key: Seq<u8>) -> bool {
    exists|v: Option<Seq<Vec<u8>>>| #[trigger] values_looked_up(k, map, percpu, key, Ok(v))
}

/// The keys were looked up in order; the one at `n` failed.
pub open spec fn cell_failed<K: Kernel>(
    k: &K,
    map: u32,
    percpu: bool,
    keys: Seq<Vec<u8>>,
    n: int,
    e: ErrorView,
) -> bool {
    &&& 0 <= n < keys.len()
    &&& values_looked_up(k, map, percpu, keys[n]@, Err(e))
    &&& forall|i: int| 0 <= i < n ==> values_found(k, map, percpu, (#[trigger] keys[i])@)
}

/// Every key was looked up, or all up to the first that failed.
pub open spec fn cells_found<K: Kernel>(
    k: &K,
    map: u32,
    percpu: bool,
    keys: Seq<Vec<u8>>,
    r: Result<Seq<Cell>, ErrorView>,
) -> bool {
    match r {
        Ok(v) => v.len() == keys.len() && forall|i: int|
            0 <= i < v.len() ==> cell_found(k, map, percpu, keys[i]@, #[trigger] v[i]),
        Err(e) => exists|n: int| #[trigger] cell_failed(k, map, percpu, keys, n, e),
    }
}

/// The cells of the map `map` were read.
pub open spec fn cells_read_from<K: Kernel>(
    k: &K,
    map: u32,
    r: Result<Seq<Cell>, ErrorView>,
) -> bool {
    exists|percpu: bool, keys: Vec<Vec<u8>>|
        {
            &&& #[trigger] call_ensures(K::is_percpu, (k, map), percpu)
            &&& #[trigger] call_ensures(K::keys, (k, map), keys)
            &&& cells_found(k, map, percpu, keys@, r)
        }
}

fn look_values_up<K: Kernel>(k: &K, map: u32, percpu: bool, key: &Vec<u8>) -> (r: Result<
    Option<Vec<Vec<u8>>>,
    MapError,
>)
    ensures
        values_looked_up(k, map, percpu, key@, found_values(r)),
{
    let b = copy_bytes(key);
    if percpu {
        let reply = k.lookup_percpu(map, b);
        assert(call_ensures(K::lookup_percpu, (k, map, b), reply));
        assert(percpu_looked_up(k, map, key@, found_values(reply)));
        reply
    } else {
        let reply = k.lookup(map, b);
        assert(call_ensures(K::lookup, (k, map, b), reply));
        assert(looked_up_in(k, map, key@, seen(reply)));
        match reply {
            Ok(Some(v)) => {
                let mut one: Vec<Vec<u8>> = Vec::new();
                one.push(v);
                assert(one@ =~= seq![v]);
                assert(value_looked_up(k, map, key@, Ok(Some(one@))));
                Ok(Some(one))
            },
            Ok(None) => {
                assert(value_looked_up(k, map, key@, Ok(None)));
                Ok(None)
            },
            Err(e) => {
                assert(value_looked_up(k, map, key@, Err(e@)));
                Err(e)
            },
        }
    }
}

fn read_cells<K: Kernel>(k: &K, map: u32) -> (r: Result<Vec<Cell>, MapError>)
    ensures
        cells_read_from(k, map, cells_view(r)),
{
    let percpu = k.is_percpu(map);
    assert(call_ensures(K::is_percpu, (k, map), percpu));
    let keys = k.keys(map);
    assert(call_ensures(K::keys, (k, map), keys));
    let mut out: Vec<Cell> = Vec::new();
    let mut i: usize = 0;
    while i < keys.len()
        invariant
            i <= keys@.len(),
            out@.len() == i,
            call_ensures(K::is_percpu, (k, map), percpu),
            call_ensures(K::keys, (k, map), keys),
            forall|j: int|
                0 <= j < i ==> cell_found(k, map, percpu, keys@[j]@, #[trigger] out@[j]),
        decreases keys@.len() - i,
    {
        let found = look_values_up(k, map, percpu, &keys[i]);
        assert(values_looked_up(k, map, percpu, keys@[i as int]@, found_values(found)));
        match found {
            Err(e) => {
                proof {
                    assert forall|j: int| 0 <= j < i implies values_found(
                        k,
                        map,
                        percpu,
                        (#[trigger] keys@[j])@,
                    ) by {
                        assert(cell_found(k, map, percpu, keys@[j]@, out@[j]));
                    }
                    assert(cell_failed(k, map, percpu, keys@, i as int, e@));
                    assert(cells_found(k, map, percpu, keys@, Err(e@)));
                }
                return Err(e);
            },
            Ok(values) => {
                let cell = Cell { key: copy_bytes(&keys[i]), values };
                let ghost before = out@;
                out.push(cell);
                assert(cell_found(k, map, percpu, keys@[i as int]@, out@[i as int]));
                assert forall|j: int| 0 <= j < i + 1 implies cell_found(
                    k,
                    map,
                    percpu,
                    keys@[j]@,
                    #[trigger] out@[j],
                ) by {
                    if j < i {
                        assert(out@[j] == before[j]);
                    }
                }
            },
        }
        i += 1;
    }
    assert(cells_found(k, map, percpu, keys@, Ok(out@)));
    Ok(out)
}

/// The counter map was opened and its cells read.
pub open spec fn cells_read<K: Kernel>(k: &K, r: Result<Seq<Cell>, ErrorView>) -> bool {
    exists|id: Result<u32, ErrorView>|
        {
            &&& #[trigger] opened(k, COUNTERS_MAP@, id)
            &&& match id {
                Err(e) => r == Err::<Seq<Cell>, ErrorView>(e),
                Ok(map) => cells_read_from(k, map, r),
            }
        }
}

pub open spec fn too_large() -> ErrorView {
    ErrorView::Json("counter sum too large"@)
}

/// The counters follow from the cells read.
pub open spec fn counters_read<K: Kernel>(
    k: &K,
    r: Result<Seq<(CounterId, u64)>, ErrorView>,
) -> bool {
    exists|cells: Result<Seq<Cell>, ErrorView>|
        {
            &&& #[trigger] cells_read(k, cells)
            &&& r == match cells {
                Err(e) => Err::<Seq<(CounterId, u64)>, ErrorView>(e),
                Ok(c) => if sums_fit(c) {
                    Ok(counter_rows(c))
                } else {
                    Err(too_large())
                },
            }
        }
}

pub open spec fn rows_view(r: Result<Vec<(CounterId, u64)>, MapError>) -> Result<
    Seq<(CounterId, u64)>,
    ErrorView,
> {
    match r {
        Ok(v) => Ok(v@),
        Err(e) => Err(e@),
    }
}

/// The counters, summed over all CPUs. A sum that 64 bits do not hold is an
/// error.
pub fn counters<K: Kernel>(k: &K) -> (r: Result<Vec<(CounterId, u64)>, MapError>)
    ensures
        counters_read(k, rows_view(r)),
{
    let map = open_map_by_name(k, COUNTERS_MAP);
    assert(opened(k, COUNTERS_MAP@, seen(map)));
    match map {
        Err(e) => {
            assert(cells_read(k, Err(e@)));
            Err(e)
        },
        Ok(id) => {
            let reply = read_cells(k, id);
            assert(cells_read_from(k, id, cells_view(reply)));
            match reply {
                Err(e) => {
                    assert(cells_read(k, Err(e@)));
                    Err(e)
                },
                Ok(cells) => {
                    assert(cells_read(k, Ok(cells@)));
                    match counters_in(&cells) {
                        Some(rows) => Ok(rows),
                        None => Err(MapError::Json("counter sum too large".to_string())),
                    }
                },
            }
        },
    }
}

/// The keys of the map `map` were counted.
pub open spec fn keys_counted_in<K: Kernel>(k: &K, map: u32, r: Result<usize, ErrorView>) -> bool {
    exists|keys: Vec<Vec<u8>>|
        #[trigger] call_ensures(K::keys, (k, map), keys) && r == Ok::<usize, ErrorView>(
            keys@.len() as usize,
        )
}

/// The number of keys of a map; a map that is not loaded has none.
pub open spec fn keys_counted<K: Kernel>(
    k: &K,
    name: Seq<char>,
    r: Result<usize, ErrorView>,
) -> bool {
    exists|id: Result<u32, ErrorView>|
        {
            &&& #[trigger] opened(k, name, id)
            &&& match id {
                Ok(map) => keys_counted_in(k, map, r),
                Err(ErrorView::NotFound(_)) => r == Ok::<usize, ErrorView>(0),
                Err(e) => r == Err::<usize, ErrorView>(e),
            }
        }
}

fn count_keys<K: Kernel>(k: &K, name: &str) -> (r: Result<usize, MapError>)
    ensures
        keys_counted(k, name@, seen(r)),
{
    let map = open_map_by_name(k, name);
    assert(opened(k, name@, seen(map)));
    match map {
        Ok(id) => {
            let keys = k.keys(id);
            assert(call_ensures(K::keys, (k, id), keys));
            assert(keys_counted_in(k, id, Ok(keys@.len() as usize)));
            Ok(keys.len())
        },
        Err(e) => match e {
            MapError::NotFound(_) => Ok(0),
            MapError::Libbpf(s) => Err(MapError::Libbpf(s)),
            MapError::Json(s) => Err(MapError::Json(s)),
            MapError::Io(s) => Err(MapError::Io(s)),
        },
    }
}

/// The number of tracked connections.
pub fn conntrack_count<K: Kernel>(k: &K) -> (r: Result<usize, MapError>)
    ensures
        keys_counted(k, CONNTRACK_MAP@, seen(r)),
{
    count_keys(k, CONNTRACK_MAP)
}

/// The number of token buckets.
pub fn rate_limit_count<K: Kernel>(k: &K) -> (r: Result<usize, MapError>)
    ensures
        keys_counted(k, RATE_LIMIT_MAP@, seen(r)),
{
    count_keys(k, RATE_LIMIT_MAP)
}

// ---- Listing the L4 ACL ----

/// An L4 ACL entry for display.
#[derive(Debug, Clone)]
pub struct AclEntry {
    pub id: usize,
    pub prefix_len: u32,
    pub family: u8,
    pub src_addr: [u8; 16],
    pub dst_addr: [u8; 16],
    pub ip_proto: u8,
    pub src_port: u16,
    pub dst_port: u16,
    pub action: String,
    pub rule: AclRule,
}

/// What an entry says.
#[verifier::ext_equal]
pub struct AclEntryView {
    pub id: int,
    pub prefix_len: u32,
    pub family: u8,
    pub src_addr: Seq<u8>,
    pub dst_addr: Seq<u8>,
    pub ip_proto: u8,
    pub src_port: u16,
    pub dst_port: u16,
    pub action: Seq<char>,
    pub rule: RuleView,
}

impl View for AclEntry {
    type V = AclEntryView;

    open spec fn view(&self) -> AclEntryView {
        AclEntryView {
            id: self.id as int,
            prefix_len: self.prefix_len,
            family: self.family,
            src_addr: self.src_addr@,
            dst_addr: self.dst_addr@,
            ip_proto: self.ip_proto,
            src_port: self.src_port,
            dst_port: self.dst_port,
            action: self.action@,
            rule: self.rule@,
        }
    }
}

/// The fields of an L4 ACL key.
#[verifier::ext_equal]
pub struct KeyView {
    pub prefix_len: u32,
    pub family: u8,
    pub src_addr: Seq<u8>,
    pub dst_addr: Seq<u8>,
    pub ip_proto: u8,
    pub dst_port: u16,
    pub src_port: u16,
    pub tcp_flags: u8,
}

/// The fields that a key holds. A key too short for the layout reads as an
/// IPv4 key of zeros.
pub open spec fn key_fields(k: Seq<u8>) -> KeyView {
    if k.len() >= 48 {
        KeyView {
            prefix_len: from_le32(k),
            family: k[4],
            src_addr: k.subrange(5, 21),
            dst_addr: k.subrange(21, 37),
            ip_proto: k[37],
            dst_port: from_le16(k.skip(38)),
            src_port: from_le16(k.skip(40)),
            tcp_flags: k[43] & k[42],
        }
    } else {
        KeyView {
            prefix_len: 0,
            family: 4,
            src_addr: zeros(16),
            dst_addr: zeros(16),
            ip_proto: 0,
            dst_port: 0,
            src_port: 0,
            tcp_flags: 0,
        }
    }
}

/// The action of a number; a number without one allows.
pub open spec fn action_of(n: u32) -> AclAction {
    match n {
        0 => AclAction::Allow,
        1 => AclAction::Drop,
        2 => AclAction::Redirect,
        3 => AclAction::Inspect,
        _ => AclAction::Allow,
    }
}

pub open spec fn action_name(a: AclAction) -> Seq<char> {
    match a {
        AclAction::Allow => "Allow"@,
        AclAction::Drop => "Drop"@,
        AclAction::Redirect => "Redirect"@,
        AclAction::Inspect => "Inspect"@,
    }
}

/// The action and rate that a value holds; a short value reads as an unknown
/// action that allows.
pub open spec fn value_action(v: Seq<u8>) -> AclAction {
    if v.len() >= 8 {
        action_of(from_le32(v))
    } else {
        AclAction::Allow
    }
}

pub open spec fn value_action_name(v: Seq<u8>) -> Seq<char> {
    if v.len() >= 8 {
        action_name(action_of(from_le32(v)))
    } else {
        "unknown"@
    }
}

pub open spec fn value_rate(v: Seq<u8>) -> u32 {
    if v.len() >= 8 {
        from_le32(v.skip(4))
    } else {
        0
    }
}

/// The protocol of a number.
pub open spec fn proto_of(n: u8) -> Proto {
    match n {
        6 => Proto::Tcp,
        17 => Proto::Udp,
        1 => Proto::Icmp,
        58 => Proto::Icmpv6,
        _ => Proto::Unknown(n),
    }
}

/// A port of a key: 0 is any.
pub open spec fn port_of(p: u16) -> PortSpec {
    if p == 0 {
        PortSpec::Any
    } else {
        PortSpec::Exact(p)
    }
}

/// The address in a key: IPv6 for family 6, else the last four bytes.
pub open spec fn addr_of(family: u8, addr: Seq<u8>) -> AddrView {
    if family == 6 {
        AddrView { v6: true, addr, prefix: None }
    } else {
        AddrView { v6: false, addr: addr.subrange(12, 16), prefix: None }
    }
}

/// The rule in a key and a value.
pub open spec fn rule_of(f: KeyView, v: Seq<u8>) -> RuleView {
    RuleView {
        action: value_action(v),
        src: addr_of(f.family, f.src_addr),
        dst: addr_of(f.family, f.dst_addr),
        proto: proto_of(f.ip_proto),
        sport: port_of(f.src_port),
        dport: port_of(f.dst_port),
        tcp_flags: f.tcp_flags,
        rate: value_rate(v),
    }
}

/// The entry of a record.
pub open spec fn acl_entry(id: int, key: Seq<u8>, value: Seq<u8>) -> AclEntryView {
    let f = key_fields(key);
    AclEntryView {
        id,
        prefix_len: f.prefix_len,
        family: f.family,
        src_addr: f.src_addr,
        dst_addr: f.dst_addr,
        ip_proto: f.ip_proto,
        src_port: f.src_port,
        dst_port: f.dst_port,
        action: value_action_name(value),
        rule: rule_of(f, value),
    }
}

/// The entries of the records in order, numbered by record; one whose value
/// was gone is left out.
pub open spec fn acl_entries(records: Seq<Record>) -> Seq<AclEntryView>
    decreases records.len(),
{
    if records.len() == 0 {
        Seq::empty()
    } else {
        let before = acl_entries(records.drop_last());
        match records.last().value {
            Some(v) => before.push(acl_entry(records.len() - 1, records.last().key@, v@)),
            None => before,
        }
    }
}

/// The entries of a list by view.
pub open spec fn acl_views(v: Seq<AclEntry>) -> Seq<AclEntryView> {
    Seq::new(v.len(), |i: int| v[i]@)
}

/// The action of a number.
pub fn action_from_u32(n: u32) -> (r: AclAction)
    ensures
        r == action_of(n),
{
    match n {
        0 => AclAction::Allow,
        1 => AclAction::Drop,
        2 => AclAction::Redirect,
        3 => AclAction::Inspect,
        _ => AclAction::Allow,
    }
}

/// The name of an action.
pub fn name_of_action(a: AclAction) -> (r: &'static str)
    ensures
        r@ == action_name(a),
{
    match a {
        AclAction::Allow => "Allow",
        AclAction::Drop => "Drop",
        AclAction::Redirect => "Redirect",
        AclAction::Inspect => "Inspect",
    }
}

/// The protocol of a number.
pub fn proto_from_u8(n: u8) -> (r: Proto)
    ensures
        r == proto_of(n),
{
    match n {
        6 => Proto::Tcp,
        17 => Proto::Udp,
        1 => Proto::Icmp,
        58 => Proto::Icmpv6,
        _ => Proto::Unknown(n),
    }
}

fn port_from_u16(p: u16) -> (r: PortSpec)
    ensures
        r == port_of(p),
{
    if p == 0 {
        PortSpec::Any
    } else {
        PortSpec::Exact(p)
    }
}

fn addr_from_key(family: u8, addr: [u8; 16]) -> (r: AclAddr)
    ensures
        r@ == addr_of(family, addr@),
{
    if family == 6 {
        AclAddr::V6(Ipv6::from_raw(addr, None))
    } else {
        AclAddr::V4(Ipv4::from_mapped(&addr))
    }
}

/// The entry of a record.
pub fn decode_acl(id: usize, key: &Vec<u8>, value: &Vec<u8>) -> (r: AclEntry)
    ensures
        r@ == acl_entry(id as int, key@, value@),
{
    let mut prefix_len: u32 = 0;
    let mut family: u8 = 4;
    let mut src_addr = [0u8; 16];
    let mut dst_addr = [0u8; 16];
    let mut ip_proto: u8 = 0;
    let mut dst_port: u16 = 0;
    let mut src_port: u16 = 0;
    let mut tcp_flags: u8 = 0;
    assert(src_addr@ =~= zeros(16));
    assert(dst_addr@ =~= zeros(16));
    let k = key.as_slice();
    if key.len() >= 48 {
        assert(k@.skip(0) =~= k@);
        prefix_len = read_le32(k, 0);
        family = k[4];
        src_addr = read_addr16(k, 5);
        dst_addr = read_addr16(k, 21);
        ip_proto = k[37];
        dst_port = read_le16(k, 38);
        src_port = read_le16(k, 40);
        tcp_flags = k[43] & k[42];
    }
    let v = value.as_slice();
    let mut action = AclAction::Allow;
    let mut name = "unknown";
    let mut rate: u32 = 0;
    if value.len() >= 8 {
        assert(v@.skip(0) =~= v@);
        action = action_from_u32(read_le32(v, 0));
        name = name_of_action(action);
        rate = read_le32(v, 4);
    }
    let rule = AclRule {
        action,
        src: addr_from_key(family, src_addr),
        dst: addr_from_key(family, dst_addr),
        proto: proto_from_u8(ip_proto),
        sport: port_from_u16(src_port),
        dport: port_from_u16(dst_port),
        tcp_flags,
        rate,
    };
    AclEntry {
        id,
        prefix_len,
        family,
        src_addr,
        dst_addr,
        ip_proto,
        src_port,
        dst_port,
        action: name.to_string(),
        rule,
    }
}

/// The entries of the records.
pub fn decode_acl_records(records: &Vec<Record>) -> (r: Vec<AclEntry>)
    ensures
        acl_views(r@) == acl_entries(records@),
{
    let mut out: Vec<AclEntry> = Vec::new();
    let mut i: usize = 0;
    assert(records@.take(0) =~= Seq::empty());
    assert(acl_views(out@) =~= Seq::empty());
    while i < records.len()
        invariant
            i <= records@.len(),
            acl_views(out@) == acl_entries(records@.take(i as int)),
        decreases records@.len() - i,
    {
        assert(records@.take(i + 1).drop_last() =~= records@.take(i as int));
        if let Some(v) = &records[i].value {
            let entry = decode_acl(i, &records[i].key, v);
            let ghost before = out@;
            out.push(entry);
            assert(acl_views(out@) =~= acl_views(before).push(entry@));
        }
        i += 1;
    }
    assert(records@.take(i as int) =~= records@);
    out
}

/// A listing comes from the records read, or fails as reading did.
pub open spec fn acl_listed<K: Kernel>(
    k: &K,
    r: Result<Seq<AclEntryView>, ErrorView>,
) -> bool {
    exists|records: Result<Seq<Record>, ErrorView>|
        {
            &&& #[trigger] read(k, L4_ACL_MAP@, records)
            &&& r == match records {
                Ok(v) => Ok::<Seq<AclEntryView>, ErrorView>(acl_entries(v)),
                Err(e) => Err(e),
            }
        }
}

pub open spec fn acl_listing(r: Result<Vec<AclEntry>, MapError>) -> Result<
    Seq<AclEntryView>,
    ErrorView,
> {
    match r {
        Ok(v) => Ok(acl_views(v@)),
        Err(e) => Err(e@),
    }
}

/// Lists the L4 ACL.
pub fn acl_list<K: Kernel>(k: &K) -> (r: Result<Vec<AclEntry>, MapError>)
    ensures
        acl_listed(k, acl_listing(r)),
{
    let records = map_records(k, L4_ACL_MAP);
    assert(read(k, L4_ACL_MAP@, crate::daemon::kernel::listed(records)));
    match records {
        Ok(v) => Ok(decode_acl_records(&v)),
        Err(e) => Err(e),
    }
}

// ---- Adding rules ----

/// The action of a word.
pub open spec fn parsed_action(s: Seq<char>) -> Result<AclAction, Seq<char>> {
    if s == "allow"@ {
        Ok(AclAction::Allow)
    } else if s == "drop"@ {
        Ok(AclAction::Drop)
    } else if s == "redirect"@ {
        Ok(AclAction::Redirect)
    } else if s == "inspect"@ {
        Ok(AclAction::Inspect)
    } else {
        Err("unknown action: "@ + s)
    }
}

/// The action of a word.
pub fn parse_action(s: &str) -> (r: Result<AclAction, String>)
    ensures
        told(r) == parsed_action(s@),
{
    if same(s, "allow") {
        Ok(AclAction::Allow)
    } else if same(s, "drop") {
        Ok(AclAction::Drop)
    } else if same(s, "redirect") {
        Ok(AclAction::Redirect)
    } else if same(s, "inspect") {
        Ok(AclAction::Inspect)
    } else {
        let mut m = "unknown action: ".to_string();
        m.append(s);
        Err(m)
    }
}

/// An address and a port, each read where it stands.
pub open spec fn pair(addr: Seq<char>, port: Seq<char>) -> Result<(AddrView, PortSpec), Seq<char>> {
    match parsed_acl_addr(addr) {
        Err(e) => Err(e),
        Ok(a) => match parsed_port(port) {
            Err(e) => Err(e),
            Ok(p) => Ok((a, p)),
        },
    }
}

/// An address alone.
pub open spec fn portless_pair(addr: Seq<char>) -> Result<(AddrView, PortSpec), Seq<char>> {
    match parsed_acl_addr(addr) {
        Err(e) => Err(e),
        Ok(a) => Ok((a, PortSpec::Any)),
    }
}

/// What follows the closing bracket at `end`, without a colon at its start.
pub open spec fn after_bracket(s: Seq<char>, end: int) -> Seq<char> {
    let rest = s.skip(end + 1);
    if starts(rest, ":"@) {
        rest.skip(1)
    } else {
        rest
    }
}

/// The endpoint that a text names. An IPv6 address may stand in brackets. A
/// protocol without ports needs none.
pub open spec fn parsed_endpoint(s: Seq<char>, proto: Proto) -> Result<
    (AddrView, PortSpec),
    Seq<char>,
> {
    if starts(s, "["@) {
        match find(s, ']') {
            None => if proto.portless() {
                Err("unclosed IPv6 bracket"@)
            } else {
                Err(s + ": unclosed IPv6 bracket"@)
            },
            Some(end) => {
                let addr = s.subrange(1, end);
                let port = after_bracket(s, end);
                if proto.portless() && port.len() == 0 {
                    portless_pair(addr)
                } else {
                    pair(addr, port)
                }
            },
        }
    } else if proto.portless() && occurrences(s, ':') > 1 {
        if ends(s, ":any"@) || ends(s, ":Any"@) || ends(s, ":ANY"@) {
            portless_pair(s.take(s.len() - 4))
        } else {
            portless_pair(s)
        }
    } else {
        match rsplit_once(s, ':') {
            Some((addr, port)) => pair(addr, port),
            None => if proto.portless() {
                portless_pair(s)
            } else {
                Err(s + " must be <ip>:<port|any>"@)
            },
        }
    }
}

/// An endpoint by view.
pub open spec fn endpoint_view(r: Result<(AclAddr, PortSpec), MapError>) -> Result<
    (AddrView, PortSpec),
    ErrorView,
> {
    match r {
        Ok((a, p)) => Ok((a@, p)),
        Err(e) => Err(e@),
    }
}

/// A result whose error is a message about the input.
pub open spec fn json<T>(r: Result<T, Seq<char>>) -> Result<T, ErrorView> {
    match r {
        Ok(t) => Ok(t),
        Err(m) => Err(ErrorView::Json(m)),
    }
}

fn read_pair(addr: &str, port: &str) -> (r: Result<(AclAddr, PortSpec), MapError>)
    ensures
        endpoint_view(r) == json(pair(addr@, port@)),
{
    match parse_acl_addr(addr) {
        Err(e) => Err(MapError::Json(e)),
        Ok(a) => match PortSpec::parse(port) {
            Err(e) => Err(MapError::Json(e)),
            Ok(p) => Ok((a, p)),
        },
    }
}

fn read_portless(addr: &str) -> (r: Result<(AclAddr, PortSpec), MapError>)
    ensures
        endpoint_view(r) == json(portless_pair(addr@)),
{
    match parse_acl_addr(addr) {
        Err(e) => Err(MapError::Json(e)),
        Ok(a) => Ok((a, PortSpec::Any)),
    }
}

/// Reads an endpoint in brackets.
fn read_bracketed(s: &str, proto: Proto) -> (r: Result<(AclAddr, PortSpec), MapError>)
    requires
        starts(s@, "["@),
    ensures
        endpoint_view(r) == json(parsed_endpoint(s@, proto)),
{
    proof {
        reveal_strlit("[");
        reveal_strlit(":");
        crate::text::lemma_find(s@, ']');
        assert(s@.take(1)[0] == s@[0]);
    }
    let v = chars_of(s);
    let n: usize = v.len();
    match find_char(&v, ']') {
        None => {
            if proto.is_portless() {
                return Err(MapError::Json("unclosed IPv6 bracket".to_string()));
            }
            let mut m = s.to_owned();
            m.append(": unclosed IPv6 bracket");
            Err(MapError::Json(m))
        },
        Some(end) => {
            let addr = sub_text(&v, 1, end);
            let rest = sub_text(&v, end + 1, n);
            assert(rest@ =~= s@.skip(end + 1));
            let port = match crate::text::after_prefix(rest.as_str(), ":") {
                Some(p) => p,
                None => rest,
            };
            assert(port@ == after_bracket(s@, end as int));
            if proto.is_portless() && port.as_str().is_empty() {
                return read_portless(addr.as_str());
            }
            read_pair(addr.as_str(), port.as_str())
        },
    }
}

/// Reads an endpoint such as `10.0.0.1:80`, `10.0.0.0/8:any` or `[::1]:443`.
pub fn parse_endpoint(s: &str, proto: Proto) -> (r: Result<(AclAddr, PortSpec), MapError>)
    ensures
        endpoint_view(r) == json(parsed_endpoint(s@, proto)),
{
    if starts_with(s, "[") {
        return read_bracketed(s, proto);
    }
    if proto.is_portless() && count_char(s, ':') > 1 {
        if ends_with(s, ":any") || ends_with(s, ":Any") || ends_with(s, ":ANY") {
            proof {
                reveal_strlit(":any");
                reveal_strlit(":Any");
                reveal_strlit(":ANY");
            }
            let v = chars_of(s);
            let head = sub_text(&v, 0, v.len() - 4);
            assert(head@ =~= s@.take(s@.len() - 4));
            return read_portless(head.as_str());
        }
        return read_portless(s);
    }
    match split_last(s, ':') {
        Some((addr, port)) => read_pair(addr.as_str(), port.as_str()),
        None => {
            if proto.is_portless() {
                return read_portless(s);
            }
            let mut m = s.to_owned();
            m.append(" must be <ip>:<port|any>");
            Err(MapError::Json(m))
        },
    }
}

/// The rule that the words of a command name; without a protocol it is TCP.
pub open spec fn parsed_rule(
    action: Seq<char>,
    src: Seq<char>,
    dst: Seq<char>,
    proto: Option<Seq<char>>,
    rate: Option<u32>,
) -> Result<RuleView, Seq<char>> {
    match parsed_action(action) {
        Err(e) => Err(e),
        Ok(a) => match (match proto {
            Some(p) => parsed_proto(p),
            None => Ok(Proto::Tcp),
        }) {
            Err(e) => Err(e),
            Ok(p) => match parsed_endpoint(src, p) {
                Err(e) => Err(e),
                Ok((src_addr, sport)) => match parsed_endpoint(dst, p) {
                    Err(e) => Err(e),
                    Ok((dst_addr, dport)) => Ok(
                        RuleView {
                            action: a,
                            src: src_addr,
                            dst: dst_addr,
                            proto: p,
                            sport,
                            dport,
                            tcp_flags: 0,
                            rate: match rate {
                                Some(r) => r,
                                None => 0,
                            },
                        },
                    ),
                },
            },
        },
    }
}

pub open spec fn rule_view(r: Result<AclRule, MapError>) -> Result<RuleView, ErrorView> {
    match r {
        Ok(a) => Ok(a@),
        Err(e) => Err(e@),
    }
}

/// The text of an optional word.
pub open spec fn opt_str(s: Option<&str>) -> Option<Seq<char>> {
    match s {
        Some(t) => Some(t@),
        None => None,
    }
}

/// Reads the rule that the words of a command name.
pub fn parse_rule(
    action: &str,
    src: &str,
    dst: &str,
    proto: Option<&str>,
    rate: Option<u32>,
) -> (r: Result<AclRule, MapError>)
    ensures
        rule_view(r) == json(parsed_rule(action@, src@, dst@, opt_str(proto), rate)),
{
    let acl_action = match parse_action(action) {
        Ok(a) => a,
        Err(e) => {
            return Err(MapError::Json(e));
        },
    };
    let proto = match proto {
        Some(p) => match Proto::parse(p) {
            Ok(p) => p,
            Err(e) => {
                return Err(MapError::Json(e));
            },
        },
        None => Proto::Tcp,
    };
    let (src_addr, sport) = match parse_endpoint(src, proto) {
        Ok(e) => e,
        Err(e) => {
            return Err(e);
        },
    };
    let (dst_addr, dport) = match parse_endpoint(dst, proto) {
        Ok(e) => e,
        Err(e) => {
            return Err(e);
        },
    };
    let rate: u32 = match rate {
        Some(r) => r,
        None => 0,
    };
    Ok(
        AclRule {
            action: acl_action,
            src: src_addr,
            dst: dst_addr,
            proto,
            sport,
            dport,
            tcp_flags: 0,
            rate,
        },
    )
}

/// The change that adds a rule.
pub open spec fn rule_write(rule: RuleView) -> WriteView {
    WriteView::Update { map: L4_ACL_MAP@, key: rule.key(), value: rule.value() }
}

/// A rule was written and nothing else, or the words named none and nothing was
/// written. A failure to write carries the action's word.
pub open spec fn rule_added<K: Kernel>(
    k: &K,
    action: Seq<char>,
    src: Seq<char>,
    dst: Seq<char>,
    proto: Option<Seq<char>>,
    rate: Option<u32>,
    done: Seq<Attempt>,
    r: Result<(), ErrorView>,
) -> bool {
    match parsed_rule(action, src, dst, proto, rate) {
        Err(e) => r == Err::<(), ErrorView>(ErrorView::Json(e)) && done.len() == 0,
        Ok(rule) => exists|w: Result<(), ErrorView>|
            {
                &&& #[trigger] written(k, rule_write(rule), done, w)
                &&& r == match w {
                    Ok(u) => Ok::<(), ErrorView>(u),
                    Err(e) => Err(ErrorView::Json("["@ + action + "] "@ + e.message())),
                }
            },
    }
}

/// Adds a rule to the L4 ACL, or replaces one with the same key.
pub fn acl_add<K: Kernel, W: Writer>(
    k: &K,
    s: &mut Session<W>,
    action: &str,
    src: &str,
    dst: &str,
    proto: Option<&str>,
    rate: Option<u32>,
) -> (r: Result<(), MapError>)
    ensures
        extends(old(s).trace(), final(s).trace()),
        final(s).writer() == old(s).writer(),
        rule_added(
            k,
            action@,
            src@,
            dst@,
            opt_str(proto),
            rate,
            since(old(s).trace(), final(s).trace()),
            seen(r),
        ),
{
    let ghost start = s.trace();
    proof {
        lemma_same(start);
    }
    let rule = match parse_rule(action, src, dst, proto, rate) {
        Ok(r) => r,
        Err(e) => {
            return Err(e);
        },
    };
    let w = map_update(k, s, L4_ACL_MAP, rule.build_key(), rule.build_value());
    assert(written(k, rule_write(rule@), since(start, s.trace()), seen(w)));
    match w {
        Ok(_) => Ok(()),
        Err(e) => {
            let mut m = "[".to_string();
            m.append(action);
            m.append("] ");
            m.append(e.message().as_str());
            Err(MapError::Json(m))
        },
    }
}

// ---- Deleting rules ----

/// The key by which an entry is deleted.
pub open spec fn entry_key(e: AclEntryView) -> Seq<u8> {
    le32(e.prefix_len) + seq![e.family] + e.src_addr + e.dst_addr + seq![e.ip_proto] + le16(
        e.dst_port,
    ) + le16(e.src_port) + seq![0u8, 0] + le16(0) + seq![0u8, 0]
}

/// The key by which an entry is deleted.
pub fn key_of_entry(e: &AclEntry) -> (r: Vec<u8>)
    ensures
        r@ == entry_key(e@),
{
    let key = L4AclKey {
        prefix_len: e.prefix_len,
        family: e.family,
        src_addr: e.src_addr,
        dst_addr: e.dst_addr,
        ip_proto: e.ip_proto,
        dst_port: e.dst_port,
        src_port: e.src_port,
        tcp_flags_mask: 0,
        tcp_flags_value: 0,
        _pad: 0,
        _pad2: 0,
    };
    let b = key.to_bytes();
    let mut out: Vec<u8> = Vec::new();
    crate::bytes::push_all(&mut out, b.as_slice());
    assert(out@ =~= b@);
    assert(key.bytes() == entry_key(e@));
    out
}

pub open spec fn out_of_range(what: Seq<char>, id: int, len: int) -> ErrorView {
    ErrorView::Json(
        what + " rule index "@ + decimal(id) + " out of range (0.."@ + decimal(len) + ")"@,
    )
}

fn range_error(what: &str, id: usize, len: usize) -> (r: MapError)
    ensures
        r@ == out_of_range(what@, id as int, len as int),
{
    let mut m = what.to_owned();
    m.append(" rule index ");
    push_decimal(&mut m, id as u64);
    m.append(" out of range (0..");
    push_decimal(&mut m, len as u64);
    m.append(")");
    MapError::Json(m)
}

/// The ACL was listed; where the index lies in the list and the key of the
/// entry is in the map, that key was deleted. Nothing else was changed.
pub open spec fn rule_deleted<K: Kernel>(
    k: &K,
    id: int,
    done: Seq<Attempt>,
    r: Result<(), ErrorView>,
) -> bool {
    exists|list: Result<Seq<AclEntryView>, ErrorView>|
        {
            &&& #[trigger] acl_listed(k, list)
            &&& match list {
                Err(e) => r == Err::<(), ErrorView>(e) && done.len() == 0,
                Ok(v) => if id >= v.len() {
                    r == Err::<(), ErrorView>(out_of_range("ACL"@, id, v.len() as int))
                        && done.len() == 0
                } else {
                    entry_deleted(k, id, entry_key(v[id]), done, r)
                },
            }
        }
}

/// The key was looked up and, where it is in the map, deleted.
pub open spec fn entry_deleted<K: Kernel>(
    k: &K,
    id: int,
    key: Seq<u8>,
    done: Seq<Attempt>,
    r: Result<(), ErrorView>,
) -> bool {
    exists|found: Result<Option<Vec<u8>>, ErrorView>|
        {
            &&& #[trigger] looked_up(k, L4_ACL_MAP@, key, found)
            &&& match found {
                Err(e) => r == Err::<(), ErrorView>(e) && done.len() == 0,
                Ok(None) => r == Err::<(), ErrorView>(
                    ErrorView::Json("ACL rule at index "@ + decimal(id) + " not found in map"@),
                ) && done.len() == 0,
                Ok(Some(_)) => written(
                    k,
                    WriteView::Delete { map: L4_ACL_MAP@, key },
                    done,
                    r,
                ),
            }
        }
}

/// Deletes the rule at an index of the list.
pub fn acl_del_by_index<K: Kernel, W: Writer>(k: &K, s: &mut Session<W>, id: usize) -> (r: Result<
    (),
    MapError,
>)
    ensures
        extends(old(s).trace(), final(s).trace()),
        final(s).writer() == old(s).writer(),
        rule_deleted(k, id as int, since(old(s).trace(), final(s).trace()), seen(r)),
{
    proof {
        lemma_same(s.trace());
    }
    let list = acl_list(k);
    assert(acl_listed(k, acl_listing(list)));
    let entries = match list {
        Ok(v) => v,
        Err(e) => {
            return Err(e);
        },
    };
    if id >= entries.len() {
        return Err(range_error("ACL", id, entries.len()));
    }
    assert(acl_views(entries@)[id as int] == entries@[id as int]@);
    let key = key_of_entry(&entries[id]);
    let again = key_of_entry(&entries[id]);
    let found = map_lookup(k, L4_ACL_MAP, key);
    assert(looked_up(k, L4_ACL_MAP@, entry_key(entries@[id as int]@), seen(found)));
    match found {
        Err(e) => Err(e),
        Ok(None) => {
            let mut m = "ACL rule at index ".to_string();
            push_decimal(&mut m, id as u64);
            m.append(" not found in map");
            Err(MapError::Json(m))
        },
        Ok(Some(_)) => map_delete(k, s, L4_ACL_MAP, again),
    }
}

// ---- The VLAN ACL ----

/// A VLAN ACL entry for display.
#[derive(Debug, Clone)]
pub struct VlanAclEntry {
    pub id: usize,
    pub outer_vlan: u16,
    pub inner_vlan: u16,
    pub action: String,
    pub rate: u32,
}

#[verifier::ext_equal]
pub struct VlanEntryView {
    pub id: int,
    pub outer_vlan: u16,
    pub inner_vlan: u16,
    pub action: Seq<char>,
    pub rate: u32,
}

impl View for VlanAclEntry {
    type V = VlanEntryView;

    open spec fn view(&self) -> VlanEntryView {
        VlanEntryView {
            id: self.id as int,
            outer_vlan: self.outer_vlan,
            inner_vlan: self.inner_vlan,
            action: self.action@,
            rate: self.rate,
        }
    }
}

/// The key of a pair of tags.
pub open spec fn vlan_key(outer: u16, inner: u16) -> Seq<u8> {
    le16(outer) + le16(inner) + seq![0u8, 0, 0, 0]
}

/// The value of a VLAN rule.
pub open spec fn vlan_value(action: AclAction, rate: u32) -> Seq<u8> {
    le32(action.spec_code()) + le32(rate)
}

/// The name of the action in a VLAN value; a number without one is unknown.
pub open spec fn vlan_action_name(v: Seq<u8>) -> Seq<char> {
    if v.len() >= 8 && from_le32(v) <= 3 {
        action_name(action_of(from_le32(v)))
    } else {
        "unknown"@
    }
}

pub open spec fn vlan_entry(id: int, key: Seq<u8>, value: Seq<u8>) -> VlanEntryView {
    VlanEntryView {
        id,
        outer_vlan: if key.len() >= 4 {
            from_le16(key)
        } else {
            0
        },
        inner_vlan: if key.len() >= 4 {
            from_le16(key.skip(2))
        } else {
            0
        },
        action: vlan_action_name(value),
        rate: value_rate(value),
    }
}

/// The entries of the records in order, numbered by record; one whose value
/// was gone is left out.
pub open spec fn vlan_entries(records: Seq<Record>) -> Seq<VlanEntryView>
    decreases records.len(),
{
    if records.len() == 0 {
        Seq::empty()
    } else {
        let before = vlan_entries(records.drop_last());
        match records.last().value {
            Some(v) => before.push(vlan_entry(records.len() - 1, records.last().key@, v@)),
            None => before,
        }
    }
}

pub open spec fn vlan_views(v: Seq<VlanAclEntry>) -> Seq<VlanEntryView> {
    Seq::new(v.len(), |i: int| v[i]@)
}

fn vlan_key_bytes(outer: u16, inner: u16) -> (r: Vec<u8>)
    ensures
        r@ == vlan_key(outer, inner),
{
    let mut v: Vec<u8> = Vec::new();
    push_le16(&mut v, outer);
    push_le16(&mut v, inner);
    push_le32(&mut v, 0);
    assert(v@ =~= vlan_key(outer, inner));
    v
}

fn vlan_value_bytes(action: AclAction, rate: u32) -> (r: Vec<u8>)
    ensures
        r@ == vlan_value(action, rate),
{
    let mut v: Vec<u8> = Vec::new();
    push_le32(&mut v, action.code());
    push_le32(&mut v, rate);
    assert(v@ =~= vlan_value(action, rate));
    v
}

/// The entry of a record.
pub fn decode_vlan(id: usize, key: &Vec<u8>, value: &Vec<u8>) -> (r: VlanAclEntry)
    ensures
        r@ == vlan_entry(id as int, key@, value@),
{
    let mut outer_vlan: u16 = 0;
    let mut inner_vlan: u16 = 0;
    assert(key@.skip(0) =~= key@);
    assert(value@.skip(0) =~= value@);
    if key.len() >= 4 {
        outer_vlan = read_le16(key.as_slice(), 0);
        inner_vlan = read_le16(key.as_slice(), 2);
    }
    let mut name = "unknown";
    let mut rate: u32 = 0;
    if value.len() >= 8 {
        let n: u32 = read_le32(value.as_slice(), 0);
        if n <= 3 {
            name = name_of_action(action_from_u32(n));
        }
        rate = read_le32(value.as_slice(), 4);
    }
    VlanAclEntry { id, outer_vlan, inner_vlan, action: name.to_string(), rate }
}

/// The entries of the records.
pub fn decode_vlan_records(records: &Vec<Record>) -> (r: Vec<VlanAclEntry>)
    ensures
        vlan_views(r@) == vlan_entries(records@),
{
    let mut out: Vec<VlanAclEntry> = Vec::new();
    let mut i: usize = 0;
    assert(records@.take(0) =~= Seq::empty());
    assert(vlan_views(out@) =~= Seq::empty());
    while i < records.len()
        invariant
            i <= records@.len(),
            vlan_views(out@) == vlan_entries(records@.take(i as int)),
        decreases records@.len() - i,
    {
        assert(records@.take(i + 1).drop_last() =~= records@.take(i as int));
        if let Some(v) = &records[i].value {
            let entry = decode_vlan(i, &records[i].key, v);
            let ghost before = out@;
            out.push(entry);
            assert(vlan_views(out@) =~= vlan_views(before).push(entry@));
        }
        i += 1;
    }
    assert(records@.take(i as int) =~= records@);
    out
}

pub open spec fn vlan_listed<K: Kernel>(k: &K, r: Result<Seq<VlanEntryView>, ErrorView>) -> bool {
    exists|records: Result<Seq<Record>, ErrorView>|
        {
            &&& #[trigger] read(k, VLAN_ACL_MAP@, records)
            &&& r == match records {
                Ok(v) => Ok::<Seq<VlanEntryView>, ErrorView>(vlan_entries(v)),
                Err(e) => Err(e),
            }
        }
}

pub open spec fn vlan_listing(r: Result<Vec<VlanAclEntry>, MapError>) -> Result<
    Seq<VlanEntryView>,
    ErrorView,
> {
    match r {
        Ok(v) => Ok(vlan_views(v@)),
        Err(e) => Err(e@),
    }
}

/// Lists the VLAN ACL.
pub fn vlan_acl_list<K: Kernel>(k: &K) -> (r: Result<Vec<VlanAclEntry>, MapError>)
    ensures
        vlan_listed(k, vlan_listing(r)),
{
    let records = map_records(k, VLAN_ACL_MAP);
    assert(read(k, VLAN_ACL_MAP@, crate::daemon::kernel::listed(records)));
    match records {
        Ok(v) => Ok(decode_vlan_records(&v)),
        Err(e) => Err(e),
    }
}

/// The change that adds a VLAN rule.
pub open spec fn vlan_write(
    outer: u16,
    inner: Option<u16>,
    action: AclAction,
    rate: Option<u32>,
) -> WriteView {
    WriteView::Update {
        map: VLAN_ACL_MAP@,
        key: vlan_key(
            outer,
            match inner {
                Some(i) => i,
                None => 0,
            },
        ),
        value: vlan_value(
            action,
            match rate {
                Some(n) => n,
                None => 0,
            },
        ),
    }
}

/// A VLAN rule was written and nothing else, or the action's word named none
/// and nothing was written.
pub open spec fn vlan_added<K: Kernel>(
    k: &K,
    outer: u16,
    inner: Option<u16>,
    action: Seq<char>,
    rate: Option<u32>,
    done: Seq<Attempt>,
    r: Result<(), ErrorView>,
) -> bool {
    match parsed_action(action) {
        Err(e) => r == Err::<(), ErrorView>(ErrorView::Json(e)) && done.len() == 0,
        Ok(a) => written(k, vlan_write(outer, inner, a, rate), done, r),
    }
}

/// Adds a VLAN rule, or replaces the one of the same tags.
pub fn vlan_acl_add<K: Kernel, W: Writer>(
    k: &K,
    s: &mut Session<W>,
    vlan_id: u16,
    inner_vlan: Option<u16>,
    action: &str,
    rate: Option<u32>,
) -> (r: Result<(), MapError>)
    ensures
        extends(old(s).trace(), final(s).trace()),
        final(s).writer() == old(s).writer(),
        vlan_added(
            k,
            vlan_id,
            inner_vlan,
            action@,
            rate,
            since(old(s).trace(), final(s).trace()),
            seen(r),
        ),
{
    proof {
        lemma_same(s.trace());
    }
    let acl_action = match parse_action(action) {
        Ok(a) => a,
        Err(e) => {
            return Err(MapError::Json(e));
        },
    };
    let inner: u16 = match inner_vlan {
        Some(i) => i,
        None => 0,
    };
    let rate: u32 = match rate {
        Some(n) => n,
        None => 0,
    };
    map_update(
        k,
        s,
        VLAN_ACL_MAP,
        vlan_key_bytes(vlan_id, inner),
        vlan_value_bytes(acl_action, rate),
    )
}

/// The VLAN ACL was listed; where the index lies in the list, the key of the
/// entry was deleted. Nothing else was changed.
pub open spec fn vlan_deleted<K: Kernel>(
    k: &K,
    id: int,
    done: Seq<Attempt>,
    r: Result<(), ErrorView>,
) -> bool {
    exists|list: Result<Seq<VlanEntryView>, ErrorView>|
        {
            &&& #[trigger] vlan_listed(k, list)
            &&& match list {
                Err(e) => r == Err::<(), ErrorView>(e) && done.len() == 0,
                Ok(v) => if id >= v.len() {
                    r == Err::<(), ErrorView>(out_of_range("VLAN ACL"@, id, v.len() as int))
                        && done.len() == 0
                } else {
                    written(
                        k,
                        WriteView::Delete {
                            map: VLAN_ACL_MAP@,
                            key: vlan_key(v[id].outer_vlan, v[id].inner_vlan),
                        },
                        done,
                        r,
                    )
                },
            }
        }
}

/// Deletes the VLAN rule at an index of the list.
pub fn vlan_acl_del_by_index<K: Kernel, W: Writer>(k: &K, s: &mut Session<W>, id: usize) -> (r:
    Result<(), MapError>)
    ensures
        extends(old(s).trace(), final(s).trace()),
        final(s).writer() == old(s).writer(),
        vlan_deleted(k, id as int, since(old(s).trace(), final(s).trace()), seen(r)),
{
    proof {
        lemma_same(s.trace());
    }
    let list = vlan_acl_list(k);
    assert(vlan_listed(k, vlan_listing(list)));
    let entries = match list {
        Ok(v) => v,
        Err(e) => {
            return Err(e);
        },
    };
    if id >= entries.len() {
        return Err(range_error("VLAN ACL", id, entries.len()));
    }
    assert(vlan_views(entries@)[id as int] == entries@[id as int]@);
    let key = vlan_key_bytes(entries[id].outer_vlan, entries[id].inner_vlan);
    map_delete(k, s, VLAN_ACL_MAP, key)
}

// ---- The event mask ----

/// The mask in the value found for the only key of the mask map.
pub open spec fn mask_in(found: Option<Vec<u8>>) -> Result<u64, ErrorView> {
    match found {
        None => Err(ErrorView::NotFound("event_mask map entry missing"@)),
        Some(v) => if v@.len() >= 8 {
            Ok(from_le64(v@))
        } else {
            Err(
                ErrorView::Json(
                    "event_mask value too short: "@ + decimal(v@.len() as int) + " bytes"@,
                ),
            )
        },
    }
}

/// The mask in the value found for the only key of the mask map.
pub fn mask_of(found: &Option<Vec<u8>>) -> (r: Result<u64, MapError>)
    ensures
        seen(r) == mask_in(*found),
{
    match found {
        None => Err(MapError::NotFound("event_mask map entry missing".to_string())),
        Some(v) => {
            if v.len() >= 8 {
                assert(v@.skip(0) =~= v@);
                Ok(read_le64(v.as_slice(), 0))
            } else {
                let mut m = "event_mask value too short: ".to_string();
                push_decimal(&mut m, v.len() as u64);
                m.append(" bytes");
                Err(MapError::Json(m))
            }
        },
    }
}

/// The mask follows from the value found.
pub open spec fn mask_read<K: Kernel>(k: &K, r: Result<u64, ErrorView>) -> bool {
    exists|found: Result<Option<Vec<u8>>, ErrorView>|
        {
            &&& #[trigger] looked_up(k, EVENT_MASK_MAP@, le32(0), found)
            &&& r == match found {
                Ok(v) => mask_in(v),
                Err(e) => Err(e),
            }
        }
}

/// Reads the mask of published event kinds.
pub fn event_mask_get<K: Kernel>(k: &K) -> (r: Result<u64, MapError>)
    ensures
        mask_read(k, seen(r)),
{
    let mut key: Vec<u8> = Vec::new();
    push_le32(&mut key, 0);
    assert(key@ =~= le32(0));
    let found = map_lookup(k, EVENT_MASK_MAP, key);
    assert(looked_up(k, EVENT_MASK_MAP@, le32(0), seen(found)));
    match found {
        Ok(v) => mask_of(&v),
        Err(e) => Err(e),
    }
}

/// The change that stores the mask.
pub open spec fn mask_write(mask: u64) -> WriteView {
    WriteView::Update { map: EVENT_MASK_MAP@, key: le32(0), value: le64(mask) }
}

/// Stores the mask of published event kinds.
pub fn event_mask_set<K: Kernel, W: Writer>(k: &K, s: &mut Session<W>, mask: u64) -> (r: Result<
    (),
    MapError,
>)
    ensures
        extends(old(s).trace(), final(s).trace()),
        final(s).writer() == old(s).writer(),
        written(k, mask_write(mask), since(old(s).trace(), final(s).trace()), seen(r)),
{
    let mut key: Vec<u8> = Vec::new();
    push_le32(&mut key, 0);
    let mut value: Vec<u8> = Vec::new();
    push_le64(&mut value, mask);
    assert(key@ =~= le32(0));
    assert(value@ =~= le64(mask));
    map_update(k, s, EVENT_MASK_MAP, key, value)
}

// ---- Clearing ----

/// The map was opened and the deletion of every key it held tried, in order and
/// once; one that failed is passed over. Nothing else was changed.
pub open spec fn cleared<K: Kernel>(
    k: &K,
    name: Seq<char>,
    done: Seq<Attempt>,
    r: Result<(), ErrorView>,
) -> bool {
    exists|id: Result<u32, ErrorView>|
        {
            &&& #[trigger] opened(k, name, id)
            &&& match id {
                Err(e) => r == Err::<(), ErrorView>(e) && done.len() == 0,
                Ok(map) => r == Ok::<(), ErrorView>(()) && keys_deleted(k, map, name, done),
            }
        }
}

/// The deletion of every key of the map `map` was tried.
pub open spec fn keys_deleted<K: Kernel>(
    k: &K,
    map: u32,
    name: Seq<char>,
    done: Seq<Attempt>,
) -> bool {
    exists|keys: Vec<Vec<u8>>|
        #[trigger] call_ensures(K::keys, (k, map), keys) && deletions(keys@, map, name, done)
}

/// The attempts are the deletions of the keys.
pub open spec fn deletions(
    keys: Seq<Vec<u8>>,
    map: u32,
    name: Seq<char>,
    done: Seq<Attempt>,
) -> bool {
    done.len() == keys.len() && forall|i: int|
        0 <= i < keys.len() ==> (#[trigger] done[i]).map == map && done[i].write
            == (WriteView::Delete { map: name, key: keys[i]@ })
}

/// Deletes every entry of a map.
pub fn clear_map<K: Kernel, W: Writer>(k: &K, s: &mut Session<W>, map_name: &str) -> (r: Result<
    (),
    MapError,
>)
    ensures
        extends(old(s).trace(), final(s).trace()),
        final(s).writer() == old(s).writer(),
        cleared(k, map_name@, since(old(s).trace(), final(s).trace()), seen(r)),
{
    let ghost start = s.trace();
    proof {
        lemma_same(start);
    }
    match open(k, map_name) {
        Err(e) => {
            assert(opened(k, map_name@, Err(e@)));
            Err(e)
        },
        Ok(h) => {
            assert(opened(k, map_name@, Ok(h.id())));
            let keys = k.keys(h.number());
            assert(call_ensures(K::keys, (k, h.id()), keys));
            let mut i: usize = 0;
            while i < keys.len()
                invariant
                    i <= keys@.len(),
                    h.name() == map_name@,
                    start == old(s).trace(),
                    s.writer() == old(s).writer(),
                    extends(start, s.trace()),
                    deletions(
                        keys@.take(i as int),
                        h.id(),
                        map_name@,
                        since(start, s.trace()),
                    ),
                decreases keys@.len() - i,
            {
                let ghost before = s.trace();
                let key = copy_bytes(&keys[i]);
                let _reply = s.delete(&h, key);
                proof {
                    lemma_push(before, s.trace().last());
                    lemma_since(start, before, s.trace());
                    let done = since(start, s.trace());
                    let ks = keys@.take(i + 1);
                    assert forall|j: int| 0 <= j < ks.len() implies (#[trigger] done[j]).map
                        == h.id() && done[j].write == (WriteView::Delete {
                        map: map_name@,
                        key: ks[j]@,
                    }) by {
                        if j < i {
                            assert(done[j] == since(start, before)[j]);
                            assert(ks[j] == keys@.take(i as int)[j]);
                        } else {
                            assert(done[j] == since(before, s.trace())[0]);
                        }
                    }
                }
                i += 1;
            }
            assert(keys@.take(i as int) =~= keys@);
            assert(keys_deleted(k, h.id(), map_name@, since(start, s.trace())));
            Ok(())
        },
    }
}

} // verus!
