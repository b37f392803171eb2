//! The backends of the load balancer.
use vstd::prelude::*;
use vstd::string::StringExecFns;

use crate::bytes::{from_le32, le32, push_le32, read_le32};
use crate::daemon::host::Host;
use crate::daemon::kernel::{
    amended_writes_run, map_records, read, run_amended_writes, run_writes, seen, write_views,
    writes_run, ErrorView, MapError, Record, Write, WriteView,
};
use crate::daemon::session::{Attempt, Session, Writer};
use crate::trace::{extends, lemma_same, since};
use crate::maps::Backend;
use crate::records::{
    backend_from_bytes, backend_hex, backend_in, backend_to_bytes, no_backend, BackendSpec,
    BackendView,
};
use crate::text::{
    decimal, has, has_char, hex_bytes, opt_text, push_decimal, split_first, split_once, told,
};

verus! {

/// Map of the backends, by number.
pub const LB_BACKENDS_MAP: &'static str = "lb_backends";
/// Map of the interfaces of the backends, by number.
pub const LB_DEV_MAP: &'static str = "lb_devmap";
/// Map with the number of backends.
pub const LB_META_MAP: &'static str = "lb_meta";

/// A backend for display.
#[derive(Debug)]
pub struct BackendEntry {
    pub id: u32,
    pub backend: Backend,
    /// The name of the backend's interface, where it has one.
    pub dev_name: Option<String>,
}

// ---- Interfaces ----

/// The number of an interface from what the kernel found for its name.
pub open spec fn interface_index(dev: Seq<char>, index: u32) -> Result<u32, Seq<char>> {
    if index == 0 {
        Err("interface '"@ + dev + "' not found (if_nametoindex returned 0)"@)
    } else {
        Ok(index)
    }
}

/// The kernel was asked for the number of an interface, unless the name cannot
/// be one.
pub open spec fn interface_resolved<H: Host>(
    h: &H,
    dev: Seq<char>,
    r: Result<u32, Seq<char>>,
) -> bool {
    if has(dev, '\0') {
        r == Err::<u32, Seq<char>>("invalid interface name: '"@ + dev + "'"@)
    } else {
        exists|name: String, index: u32|
            {
                &&& name@ == dev
                &&& #[trigger] call_ensures(H::if_nametoindex, (h, name), index)
                &&& r == interface_index(dev, index)
            }
    }
}

/// A number, or a message.
pub open spec fn index_view(r: Result<u32, String>) -> Result<u32, Seq<char>> {
    match r {
        Ok(n) => Ok(n),
        Err(e) => Err(e@),
    }
}

/// The number of an interface from what the kernel found for its name.
pub fn checked_index(dev: &str, index: u32) -> (r: Result<u32, String>)
    ensures
        index_view(r) == interface_index(dev@, index),
{
    if index == 0 {
        let mut m = "interface '".to_string();
        m.append(dev);
        m.append("' not found (if_nametoindex returned 0)");
        return Err(m);
    }
    Ok(index)
}

/// The number of an interface.
pub fn ifindex<H: Host>(h: &H, dev: &str) -> (r: Result<u32, String>)
    ensures
        interface_resolved(h, dev@, index_view(r)),
{
    if has_char(dev, '\0') {
        let mut m = "invalid interface name: '".to_string();
        m.append(dev);
        m.append("'");
        return Err(m);
    }
    let name = dev.to_owned();
    let index: u32 = h.if_nametoindex(name);
    assert(call_ensures(H::if_nametoindex, (h, name), index));
    checked_index(dev, index)
}

/// A name without what follows an `@`.
pub open spec fn plain_name(s: Seq<char>) -> Seq<char> {
    match split_once(s, '@') {
        Some((a, b)) => a,
        None => s,
    }
}

/// A name without what follows an `@`.
pub fn interface_name(s: &str) -> (r: String)
    ensures
        r@ == plain_name(s@),
{
    match split_first(s, '@') {
        Some((a, _)) => a,
        None => s.to_owned(),
    }
}

/// The name of an interface was asked for; number 0 has none.
pub open spec fn name_resolved<H: Host>(h: &H, ifindex: u32, r: Option<Seq<char>>) -> bool {
    if ifindex == 0 {
        r is None
    } else {
        exists|raw: Option<String>|
            {
                &&& #[trigger] call_ensures(H::if_indextoname, (h, ifindex), raw)
                &&& r == match raw {
                    Some(s) => Some(plain_name(s@)),
                    None => None,
                }
            }
    }
}

/// The name of an interface.
pub fn ifindex_to_name<H: Host>(h: &H, ifindex: u32) -> (r: Option<String>)
    ensures
        name_resolved(h, ifindex, opt_text(r)),
{
    if ifindex == 0 {
        return None;
    }
    let raw = h.if_indextoname(ifindex);
    assert(call_ensures(H::if_indextoname, (h, ifindex), raw));
    match raw {
        Some(s) => Some(interface_name(s.as_str())),
        None => None,
    }
}

// ---- Listing ----

/// The number in a key.
pub open spec fn key_id(key: Seq<u8>) -> u32 {
    if key.len() >= 4 {
        from_le32(key)
    } else {
        0
    }
}

/// The configured backends in the records, in order, each with its number.
pub open spec fn configured_in(records: Seq<Record>) -> Seq<(u32, BackendView)>
    decreases records.len(),
{
    if records.len() == 0 {
        Seq::empty()
    } else {
        let before = configured_in(records.drop_last());
        let last = records.last();
        match last.value {
            Some(v) => if backend_in(v@).ifindex != 0 {
                before.push((key_id(last.key@), backend_in(v@)))
            } else {
                before
            },
            None => before,
        }
    }
}

/// The numbers and backends of a list.
pub open spec fn backends_of(v: Seq<BackendEntry>) -> Seq<(u32, BackendView)> {
    Seq::new(v.len(), |i: int| (v[i].id, v[i].backend@))
}

/// Every entry has the name of its interface.
pub open spec fn names_resolved<H: Host>(h: &H, v: Seq<BackendEntry>) -> bool {
    forall|i: int|
        0 <= i < v.len() ==> name_resolved(
            h,
            (#[trigger] v[i]).backend.ifindex,
            opt_text(v[i].dev_name),
        )
}

/// The list holds the configured backends of the records read.
pub open spec fn backends_listed<H: Host>(
    h: &H,
    r: Result<Seq<(u32, BackendView)>, ErrorView>,
) -> bool {
    exists|records: Result<Seq<Record>, ErrorView>|
        {
            &&& #[trigger] read(h, LB_BACKENDS_MAP@, records)
            &&& r == match records {
                Ok(v) => Ok::<Seq<(u32, BackendView)>, ErrorView>(configured_in(v)),
                Err(e) => Err(e),
            }
        }
}

pub open spec fn backend_listing(r: Result<Vec<BackendEntry>, MapError>) -> Result<
    Seq<(u32, BackendView)>,
    ErrorView,
> {
    match r {
        Ok(v) => Ok(backends_of(v@)),
        Err(e) => Err(e@),
    }
}

/// The configured backends in the records.
pub fn decode_backends(records: &Vec<Record>) -> (r: Vec<BackendEntry>)
    ensures
        backends_of(r@) == configured_in(records@),
        forall|i: int| 0 <= i < r@.len() ==> (#[trigger] r@[i]).dev_name is None,
{
    let mut out: Vec<BackendEntry> = Vec::new();
    let mut i: usize = 0;
    assert(records@.take(0) =~= Seq::empty());
    assert(backends_of(out@) =~= Seq::empty());
    while i < records.len()
        invariant
            i <= records@.len(),
            backends_of(out@) == configured_in(records@.take(i as int)),
            forall|j: int| 0 <= j < out@.len() ==> (#[trigger] out@[j]).dev_name is None,
        decreases records@.len() - i,
    {
        assert(records@.take(i + 1).drop_last() =~= records@.take(i as int));
        if let Some(v) = &records[i].value {
            let backend = backend_from_bytes(v);
            if backend.is_configured() {
                let key = &records[i].key;
                assert(key@.skip(0) =~= key@);
                let id: u32 = if key.len() >= 4 {
                    read_le32(key.as_slice(), 0)
                } else {
                    0
                };
                let ghost before = out@;
                out.push(BackendEntry { id, backend, dev_name: None });
                assert(backends_of(out@) =~= backends_of(before).push((id, backend@)));
            }
        }
        i += 1;
    }
    assert(records@.take(i as int) =~= records@);
    out
}

/// Lists the configured backends.
pub fn backend_list<H: Host>(h: &H) -> (r: Result<Vec<BackendEntry>, MapError>)
    ensures
        backends_listed(h, backend_listing(r)),
        r matches Ok(v) ==> names_resolved(h, v@),
{
    let records = map_records(h, LB_BACKENDS_MAP);
    assert(read(h, LB_BACKENDS_MAP@, crate::daemon::kernel::listed(records)));
    match records {
        Err(e) => Err(e),
        Ok(v) => {
            let plain = decode_backends(&v);
            let mut out: Vec<BackendEntry> = Vec::new();
            let mut i: usize = 0;
            while i < plain.len()
                invariant
                    i <= plain@.len(),
                    backends_of(out@) == backends_of(plain@).take(i as int),
                    names_resolved(h, out@),
                decreases plain@.len() - i,
            {
                let backend = plain[i].backend;
                let dev_name = ifindex_to_name(h, backend.ifindex);
                let ghost before = out@;
                out.push(BackendEntry { id: plain[i].id, backend, dev_name });
                let ghost pair = (plain@[i as int].id, backend@);
                assert(backends_of(out@) =~= backends_of(before).push(pair));
                assert(backends_of(plain@).take(i + 1) =~= backends_of(plain@).take(
                    i as int,
                ).push(pair));
                i += 1;
            }
            assert(backends_of(plain@).take(i as int) =~= backends_of(plain@));
            assert(backends_of(out@) == configured_in(v@));
            Ok(out)
        },
    }
}

// ---- Numbers ----

/// The largest of the numbers.
pub open spec fn largest(ids: Seq<(u32, BackendView)>) -> Option<u32>
    decreases ids.len(),
{
    if ids.len() == 0 {
        None
    } else {
        match largest(ids.drop_last()) {
            None => Some(ids.last().0),
            Some(m) => if ids.last().0 > m {
                Some(ids.last().0)
            } else {
                Some(m)
            },
        }
    }
}

pub open spec fn no_free_id() -> ErrorView {
    ErrorView::Json("no free backend id"@)
}

/// The number after the largest one; 0 where there is no backend.
pub open spec fn next_id(list: Seq<(u32, BackendView)>) -> Result<u32, ErrorView> {
    match largest(list) {
        None => Ok(0),
        Some(m) => if m == u32::MAX {
            Err(no_free_id())
        } else {
            Ok((m + 1) as u32)
        },
    }
}

/// The number after the largest one of a list.
pub fn id_after(list: &Vec<BackendEntry>) -> (r: Result<u32, MapError>)
    ensures
        seen(r) == next_id(backends_of(list@)),
{
    let mut found: bool = false;
    let mut max: u32 = 0;
    let ghost all = backends_of(list@);
    let mut i: usize = 0;
    assert(all.take(0) =~= Seq::empty());
    while i < list.len()
        invariant
            i <= list@.len(),
            all == backends_of(list@),
            largest(all.take(i as int)) == if found {
                Some(max)
            } else {
                None
            },
        decreases list@.len() - i,
    {
        assert(all.take(i + 1).drop_last() =~= all.take(i as int));
        assert(all.take(i + 1).last().0 == list@[i as int].id);
        if !found || list[i].id > max {
            found = true;
            max = list[i].id;
        }
        i += 1;
    }
    assert(all.take(i as int) =~= all);
    if !found {
        return Ok(0);
    }
    if max == u32::MAX {
        return Err(MapError::Json("no free backend id".to_string()));
    }
    Ok(max + 1)
}

/// The number follows from the list that was read.
pub open spec fn id_chosen<H: Host>(h: &H, r: Result<u32, ErrorView>) -> bool {
    exists|list: Result<Seq<(u32, BackendView)>, ErrorView>|
        {
            &&& #[trigger] backends_listed(h, list)
            &&& r == match list {
                Ok(v) => next_id(v),
                Err(e) => Err(e),
            }
        }
}

/// The number for a new backend: one more than the largest in use.
pub fn next_backend_id<H: Host>(h: &H) -> (r: Result<u32, MapError>)
    ensures
        id_chosen(h, seen(r)),
{
    let list = backend_list(h);
    assert(backends_listed(h, backend_listing(list)));
    match list {
        Ok(v) => id_after(&v),
        Err(e) => Err(e),
    }
}

// ---- Adding ----

/// The changes that add a backend: its entry, its interface, and the number of
/// backends.
pub open spec fn add_writes(backend: BackendView, id: u32) -> Seq<WriteView> {
    seq![
        WriteView::Update { map: LB_BACKENDS_MAP@, key: le32(id), value: backend.bytes() },
        WriteView::Update {
            map: LB_DEV_MAP@,
            key: le32(id),
            value: le32(backend.ifindex) + le32(0),
        },
        WriteView::Update {
            map: LB_META_MAP@,
            key: le32(0),
            value: le32((id + 1) as u32) + le32(0),
        },
    ]
}

pub(crate) fn number_key(id: u32) -> (r: Vec<u8>)
    ensures
        r@ == le32(id),
{
    let mut v: Vec<u8> = Vec::new();
    push_le32(&mut v, id);
    assert(v@ =~= le32(id));
    v
}

pub(crate) fn number_pair(a: u32, b: u32) -> (r: Vec<u8>)
    ensures
        r@ == le32(a) + le32(b),
{
    let mut v: Vec<u8> = Vec::new();
    push_le32(&mut v, a);
    push_le32(&mut v, b);
    assert(v@ =~= le32(a) + le32(b));
    v
}

/// The changes that add a backend under a number.
pub fn writes_to_add(spec: &BackendSpec, ifindex: u32, id: u32) -> (r: Vec<Write>)
    requires
        id < u32::MAX,
    ensures
        write_views(r@) == add_writes(spec.backend(ifindex), id),
{
    let backend = spec.build(ifindex);
    let mut w: Vec<Write> = Vec::new();
    w.push(
        Write::Update {
            map: LB_BACKENDS_MAP,
            key: number_key(id),
            value: backend_to_bytes(&backend),
        },
    );
    w.push(Write::Update { map: LB_DEV_MAP, key: number_key(id), value: number_pair(ifindex, 0) });
    w.push(Write::Update { map: LB_META_MAP, key: number_key(0), value: number_pair(id + 1, 0) });
    assert(write_views(w@) =~= add_writes(spec.backend(ifindex), id));
    w
}

/// A backend was added under the next number and nothing else was changed, or
/// the first failure handed on: of the interface, of the number, of a change.
pub open spec fn backend_added<H: Host>(
    h: &H,
    spec: BackendSpec,
    done: Seq<Attempt>,
    r: Result<u32, ErrorView>,
) -> bool {
    exists|index: Result<u32, Seq<char>>|
        {
            &&& #[trigger] interface_resolved(h, spec.dev@, index)
            &&& match index {
                Err(m) => r == Err::<u32, ErrorView>(ErrorView::Json(m)) && done.len() == 0,
                Ok(ifindex) => backend_added_on(h, spec, ifindex, done, r),
            }
        }
}

pub open spec fn backend_stored<H: Host>(
    h: &H,
    backend: BackendView,
    id: u32,
    done: Seq<Attempt>,
    r: Result<u32, ErrorView>,
) -> bool {
    exists|w: Result<(), ErrorView>|
        {
            &&& #[trigger] amended_writes_run(h, add_writes(backend, id), done, w)
            &&& r == match w {
                Ok(_) => Ok::<u32, ErrorView>(id),
                Err(e) => Err(e),
            }
        }
}

pub open spec fn backend_added_on<H: Host>(
    h: &H,
    spec: BackendSpec,
    ifindex: u32,
    done: Seq<Attempt>,
    r: Result<u32, ErrorView>,
) -> bool {
    exists|id: Result<u32, ErrorView>|
        {
            &&& #[trigger] id_chosen(h, id)
            &&& match id {
                Err(e) => r == Err::<u32, ErrorView>(e) && done.len() == 0,
                Ok(n) => if n == u32::MAX {
                    r == Err::<u32, ErrorView>(no_free_id()) && done.len() == 0
                } else {
                    backend_stored(h, spec.backend(ifindex), n, done, r)
                },
            }
        }
}

/// Adds a backend and returns its number.
pub fn backend_add<H: Host, W: Writer>(h: &H, s: &mut Session<W>, spec: &BackendSpec) -> (r: Result<
    u32,
    MapError,
>)
    ensures
        extends(old(s).trace(), final(s).trace()),
        final(s).writer() == old(s).writer(),
        backend_added(h, *spec, since(old(s).trace(), final(s).trace()), seen(r)),
{
    let ghost start = s.trace();
    proof {
        lemma_same(start);
    }
    let index = ifindex(h, spec.dev.as_str());
    assert(interface_resolved(h, spec.dev@, index_view(index)));
    let on = match index {
        Ok(n) => n,
        Err(e) => {
            return Err(MapError::Json(e));
        },
    };
    let chosen = next_backend_id(h);
    assert(id_chosen(h, seen(chosen)));
    match chosen {
        Err(e) => {
            assert(backend_added_on(h, *spec, on, since(start, s.trace()), Err(e@)));
            Err(e)
        },
        Ok(id) => {
            if id == u32::MAX {
                let e = MapError::Json("no free backend id".to_string());
                assert(backend_added_on(h, *spec, on, since(start, s.trace()), Err(e@)));
                return Err(e);
            }
            let writes = writes_to_add(spec, on, id);
            let w = run_amended_writes(h, s, &writes);
            let ghost done = since(start, s.trace());
            assert(amended_writes_run(h, add_writes(spec.backend(on), id), done, seen(w)));
            match w {
                Ok(_) => {
                    assert(backend_stored(h, spec.backend(on), id, done, Ok(id)));
                    assert(backend_added_on(h, *spec, on, done, Ok(id)));
                    Ok(id)
                },
                Err(e) => {
                    assert(backend_stored(h, spec.backend(on), id, done, Err(e@)));
                    assert(backend_added_on(h, *spec, on, done, Err(e@)));
                    Err(e)
                },
            }
        },
    }
}

// ---- Deleting ----

/// The changes that take a backend away: its slot becomes unused, and its
/// interface goes.
pub open spec fn remove_writes(id: u32) -> Seq<WriteView> {
    seq![
        WriteView::Update { map: LB_BACKENDS_MAP@, key: le32(id), value: no_backend().bytes() },
        WriteView::Delete { map: LB_DEV_MAP@, key: le32(id) },
    ]
}

/// The changes that take every backend of a list away.
pub open spec fn remove_all_writes(list: Seq<(u32, BackendView)>) -> Seq<WriteView>
    decreases list.len(),
{
    if list.len() == 0 {
        Seq::empty()
    } else {
        remove_all_writes(list.drop_last()) + remove_writes(list.last().0)
    }
}

fn push_remove(w: &mut Vec<Write>, id: u32)
    ensures
        write_views(final(w)@) == write_views(old(w)@) + remove_writes(id),
{
    let zero = Backend::default();
    w.push(
        Write::Update {
            map: LB_BACKENDS_MAP,
            key: number_key(id),
            value: backend_to_bytes(&zero),
        },
    );
    w.push(Write::Delete { map: LB_DEV_MAP, key: number_key(id) });
    assert(write_views(w@) =~= write_views(old(w)@) + remove_writes(id));
}

/// The changes that take a backend away.
pub fn writes_to_remove(id: u32) -> (r: Vec<Write>)
    ensures
        write_views(r@) == remove_writes(id),
{
    let mut w: Vec<Write> = Vec::new();
    push_remove(&mut w, id);
    assert(write_views(w@) =~= remove_writes(id));
    w
}

/// The changes that take all backends of a list away.
pub fn writes_to_flush(list: &Vec<BackendEntry>) -> (r: Vec<Write>)
    ensures
        write_views(r@) == remove_all_writes(backends_of(list@)),
{
    let mut w: Vec<Write> = Vec::new();
    let ghost all = backends_of(list@);
    let mut i: usize = 0;
    assert(all.take(0) =~= Seq::empty());
    assert(write_views(w@) =~= Seq::empty());
    while i < list.len()
        invariant
            i <= list@.len(),
            all == backends_of(list@),
            write_views(w@) == remove_all_writes(all.take(i as int)),
        decreases list@.len() - i,
    {
        assert(all.take(i + 1).drop_last() =~= all.take(i as int));
        assert(all.take(i + 1).last().0 == list@[i as int].id);
        push_remove(&mut w, list[i].id);
        i += 1;
    }
    assert(all.take(i as int) =~= all);
    w
}

/// Whether the list holds a number.
pub open spec fn has_id(list: Seq<(u32, BackendView)>, id: u32) -> bool {
    exists|i: int| 0 <= i < list.len() && (#[trigger] list[i]).0 == id
}

pub(crate) fn list_has_id(list: &Vec<BackendEntry>, id: u32) -> (r: bool)
    ensures
        r == has_id(backends_of(list@), id),
{
    let mut i: usize = 0;
    while i < list.len()
        invariant
            i <= list@.len(),
            forall|j: int| 0 <= j < i ==> (#[trigger] backends_of(list@)[j]).0 != id,
        decreases list@.len() - i,
    {
        assert(backends_of(list@)[i as int].0 == list@[i as int].id);
        if list[i].id == id {
            return true;
        }
        i += 1;
    }
    false
}

pub open spec fn unknown_backend(id: u32) -> ErrorView {
    ErrorView::Json("backend with id="@ + decimal(id as int) + " not found"@)
}

/// A backend was taken away, if there is one of the number; nothing else was
/// changed.
pub open spec fn backend_deleted<H: Host>(
    h: &H,
    id: u32,
    done: Seq<Attempt>,
    r: Result<(), ErrorView>,
) -> bool {
    exists|list: Result<Seq<(u32, BackendView)>, ErrorView>|
        {
            &&& #[trigger] backends_listed(h, list)
            &&& match list {
                Err(e) => r == Err::<(), ErrorView>(e) && done.len() == 0,
                Ok(v) => if has_id(v, id) {
                    writes_run(h, remove_writes(id), done, r)
                } else {
                    r == Err::<(), ErrorView>(unknown_backend(id)) && done.len() == 0
                },
            }
        }
}

/// Takes a backend away.
pub fn backend_delete<H: Host, W: Writer>(h: &H, s: &mut Session<W>, id: u32) -> (r: Result<
    (),
    MapError,
>)
    ensures
        extends(old(s).trace(), final(s).trace()),
        final(s).writer() == old(s).writer(),
        backend_deleted(h, id, since(old(s).trace(), final(s).trace()), seen(r)),
{
    proof {
        lemma_same(s.trace());
    }
    let list = backend_list(h);
    assert(backends_listed(h, backend_listing(list)));
    match list {
        Err(e) => Err(e),
        Ok(v) => {
            if !list_has_id(&v, id) {
                let mut m = "backend with id=".to_string();
                push_decimal(&mut m, id as u64);
                m.append(" not found");
                return Err(MapError::Json(m));
            }
            run_writes(h, s, &writes_to_remove(id))
        },
    }
}

/// All backends were taken away and nothing else was changed; their number is
/// returned.
pub open spec fn backends_flushed<H: Host>(
    h: &H,
    done: Seq<Attempt>,
    r: Result<usize, ErrorView>,
) -> bool {
    exists|list: Result<Seq<(u32, BackendView)>, ErrorView>|
        {
            &&& #[trigger] backends_listed(h, list)
            &&& match list {
                Err(e) => r == Err::<usize, ErrorView>(e) && done.len() == 0,
                Ok(v) => list_flushed(h, v, done, r),
            }
        }
}

pub open spec fn list_flushed<H: Host>(
    h: &H,
    list: Seq<(u32, BackendView)>,
    done: Seq<Attempt>,
    r: Result<usize, ErrorView>,
) -> bool {
    exists|w: Result<(), ErrorView>|
        {
            &&& #[trigger] writes_run(h, remove_all_writes(list), done, w)
            &&& r == match w {
                Ok(_) => Ok::<usize, ErrorView>(list.len() as usize),
                Err(e) => Err(e),
            }
        }
}

/// Takes all backends away and returns how many there were.
pub fn backend_flush<H: Host, W: Writer>(h: &H, s: &mut Session<W>) -> (r: Result<usize, MapError>)
    ensures
        extends(old(s).trace(), final(s).trace()),
        final(s).writer() == old(s).writer(),
        backends_flushed(h, since(old(s).trace(), final(s).trace()), seen(r)),
{
    let ghost start = s.trace();
    proof {
        lemma_same(start);
    }
    let list = backend_list(h);
    assert(backends_listed(h, backend_listing(list)));
    match list {
        Err(e) => {
            assert(backends_listed(h, Err(e@)));
            Err(e)
        },
        Ok(v) => {
            let writes = writes_to_flush(&v);
            let w = run_writes(h, s, &writes);
            let ghost done = since(start, s.trace());
            assert(writes_run(h, remove_all_writes(backends_of(v@)), done, seen(w)));
            assert(backends_listed(h, Ok(backends_of(v@))));
            match w {
                Ok(_) => {
                    assert(list_flushed(h, backends_of(v@), done, Ok(v@.len() as usize)));
                    Ok(v.len())
                },
                Err(e) => {
                    assert(list_flushed(h, backends_of(v@), done, Err(e@)));
                    Err(e)
                },
            }
        },
    }
}

/// The bytes of a backend as a text, for debugging.
pub fn backend_to_hex<H: Host>(h: &H, spec: &BackendSpec) -> (r: Result<String, String>)
    ensures
        exists|index: Result<u32, Seq<char>>|
            {
                &&& #[trigger] interface_resolved(h, spec.dev@, index)
                &&& told(r) == match index {
                    Ok(n) => Ok::<Seq<char>, Seq<char>>(hex_bytes(spec.backend(n).bytes())),
                    Err(m) => Err(m),
                }
            },
{
    let index = ifindex(h, spec.dev.as_str());
    assert(interface_resolved(h, spec.dev@, index_view(index)));
    match index {
        Ok(n) => Ok(backend_hex(spec, n)),
        Err(e) => Err(e),
    }
}

// ---- Laws ----

proof fn lemma_largest(list: Seq<(u32, BackendView)>)
    ensures
        match largest(list) {
            None => list.len() == 0,
            Some(m) => has_id(list, m) && forall|i: int|
                0 <= i < list.len() ==> (#[trigger] list[i]).0 <= m,
        },
    decreases list.len(),
{
    if list.len() > 0 {
        let before = list.drop_last();
        lemma_largest(before);
        assert(list[list.len() - 1] == list.last());
        match largest(before) {
            None => {},
            Some(m) => {
                let i = choose|i: int| 0 <= i < before.len() && (#[trigger] before[i]).0 == m;
                assert(list[i].0 == m);
                assert forall|j: int| 0 <= j < list.len() - 1 implies list[j] == before[j] by {}
            },
        }
    }
}

/// A new backend gets a number that no backend of the list has, larger than
/// all of them.
pub proof fn new_ids_are_fresh(list: Seq<(u32, BackendView)>)
    ensures
        next_id(list) matches Ok(id) ==> {
            &&& !has_id(list, id)
            &&& forall|i: int| 0 <= i < list.len() ==> (#[trigger] list[i]).0 < id
        },
{
    lemma_largest(list);
}

/// A new backend gets the number 0 where there is none, else one more than the
/// largest; only where that is the largest number of all it gets none.
pub proof fn new_ids_follow_the_largest(list: Seq<(u32, BackendView)>)
    ensures
        list.len() == 0 ==> next_id(list) == Ok::<u32, ErrorView>(0),
        list.len() > 0 ==> exists|i: int|
            {
                &&& 0 <= i < list.len()
                &&& forall|j: int|
                    0 <= j < list.len() ==> (#[trigger] list[j]).0 <= list[i].0
                &&& (#[trigger] list[i]).0 < 0xffff_ffff ==> next_id(list) == Ok::<u32, ErrorView>(
                    (list[i].0 + 1) as u32,
                )
                &&& list[i].0 == 0xffff_ffff ==> next_id(list) is Err
            },
{
    if list.len() > 0 {
        let i = lemma_largest_is_one_of(list);
        lemma_largest(list);
        assert(largest(list) == Some(list[i].0));
    }
}

proof fn lemma_largest_is_one_of(list: Seq<(u32, BackendView)>) -> (i: int)
    requires
        list.len() > 0,
    ensures
        0 <= i < list.len(),
        largest(list) == Some(list[i].0),
    decreases list.len(),
{
    let rest = list.drop_last();
    if rest.len() == 0 {
        0
    } else {
        let i = lemma_largest_is_one_of(rest);
        assert(rest[i] == list[i]);
        if list.last().0 > list[i].0 {
            list.len() - 1
        } else {
            i
        }
    }
}

/// What is written for a removed backend reads as an unused slot.
pub proof fn removed_slot_is_unused()
    ensures
        backend_in(no_backend().bytes()).ifindex == 0,
{
    crate::records::backend_bytes_roundtrip(no_backend());
}

/// What is written for a new backend is listed as that backend.
pub proof fn added_backend_is_listed(spec: BackendSpec, ifindex: u32, id: u32, record: Record)
    requires
        ifindex != 0,
        record.key@ == le32(id),
        record.value is Some,
        record.value->0@ == spec.backend(ifindex).bytes(),
    ensures
        configured_in(seq![record]) == seq![(id, spec.backend(ifindex))],
{
    let b = spec.backend(ifindex);
    crate::records::backend_bytes_roundtrip(b);
    crate::bytes::lemma_le32_roundtrip(id);
    assert(seq![record].drop_last() =~= Seq::empty());
    assert(configured_in(seq![record].drop_last()) =~= Seq::empty());
    assert(configured_in(seq![record]) =~= seq![(id, b)]);
}

} // verus!
