//! The backends of the load balancer, through `bpftool`.
use vstd::prelude::*;
use vstd::string::StringExecFns;

use crate::bytes::le32;
use crate::ctl::bpftool::{
    amend, array_bytes, bpftool_run, deleted, dump_map, dump_read, entries_seen, hex_words, low32,
    map_delete, map_update, run_on, seen, to_hex_bytes, updated, MapError, ToolErrorView,
    ToolOutput, Tools, addr_from_json, push_texts, push_words, word_texts,
};
use crate::ctl::edits::{Edit, Editor, Edits};
use crate::daemon::backend::{
    backends_of, checked_index, has_id, id_after, index_view, interface_index, interface_name,
    list_has_id, next_id, number_key, number_pair, plain_name, BackendEntry, LB_BACKENDS_MAP,
    LB_DEV_MAP, LB_META_MAP,
};
use crate::json::{json_views, Json, JsonView};
use crate::maps::Backend;
use crate::records::{
    backend_hex, backend_to_bytes, no_backend, BackendSpec, BackendView,
};
use crate::acl_key::zeros;
use crate::trace::{extends, lemma_same, lemma_since, since};
use crate::text::{
    decimal, has, has_char, hex_bytes, lines, opt_text, parse_number, push_decimal, read_number,
    split_first, split_lines, split_once, texts, told, trim, trimmed,
};

verus! {

// ---- Interfaces ----

/// The number of an interface was asked for, unless the name cannot be one.
pub open spec fn interface_resolved<T: Tools>(
    t: &T,
    dev: Seq<char>,
    r: Result<u32, Seq<char>>,
) -> bool {
    if has(dev, '\0') {
        r == Err::<u32, Seq<char>>("invalid interface name: '"@ + dev + "'"@)
    } else {
        exists|name: String, index: u32|
            {
                &&& name@ == dev
                &&& #[trigger] call_ensures(T::if_nametoindex, (t, name), index)
                &&& r == interface_index(dev, index)
            }
    }
}

/// The number of an interface.
pub fn ifindex<T: Tools>(t: &T, dev: &str) -> (r: Result<u32, String>)
    ensures
        interface_resolved(t, dev@, index_view(r)),
{
    if has_char(dev, '\0') {
        let mut m = "invalid interface name: '".to_string();
        m.append(dev);
        m.append("'");
        return Err(m);
    }
    let name = dev.to_owned();
    let index: u32 = t.if_nametoindex(name);
    assert(call_ensures(T::if_nametoindex, (t, name), index));
    checked_index(dev, index)
}

/// What one line of `ip -o link show` says about an interface number: its
/// name, that the search ends without one, or nothing.
pub enum LinkLine {
    Name(Seq<char>),
    End,
    Other,
}

/// A line is `<number>: <name>: ...`; a line that is not ends the search.
pub open spec fn link_line(line: Seq<char>, ifindex: u32) -> LinkLine {
    match split_once(line, ':') {
        None => LinkLine::End,
        Some((head, rest)) => match parse_number(trim(head), 10, u32::MAX as int) {
            None => LinkLine::End,
            Some(n) => if n != ifindex {
                LinkLine::Other
            } else {
                match split_once(rest, ':') {
                    None => LinkLine::End,
                    Some((name, tail)) => LinkLine::Name(plain_name(trim(name))),
                }
            },
        },
    }
}

/// The name of an interface in the lines from index `i` on.
pub open spec fn name_in_lines(l: Seq<Seq<char>>, ifindex: u32, i: int) -> Option<Seq<char>>
    decreases l.len() - i,
{
    if i < 0 || i >= l.len() {
        None
    } else {
        match link_line(l[i], ifindex) {
            LinkLine::Name(n) => Some(n),
            LinkLine::End => None,
            LinkLine::Other => name_in_lines(l, ifindex, i + 1),
        }
    }
}

/// The name of an interface in what `ip -o link show` prints.
pub fn name_in_links(text: &str, ifindex: u32) -> (r: Option<String>)
    ensures
        opt_text(r) == name_in_lines(lines(text@), ifindex, 0),
{
    let all = split_lines(text);
    let ghost l = texts(all@);
    let mut i: usize = 0;
    while i < all.len()
        invariant
            i <= all@.len(),
            l == texts(all@),
            l == lines(text@),
            name_in_lines(l, ifindex, 0) == name_in_lines(l, ifindex, i as int),
        decreases all@.len() - i,
    {
        assert(l[i as int] == all@[i as int]@);
        match split_first(all[i].as_str(), ':') {
            None => {
                return None;
            },
            Some((head, rest)) => match read_number(
                trimmed(head.as_str()).as_str(),
                10,
                0xffff_ffff,
            ) {
                None => {
                    return None;
                },
                Some(n) => {
                    if n == ifindex as u64 {
                        return match split_first(rest.as_str(), ':') {
                            None => None,
                            Some((name, _)) => Some(
                                interface_name(trimmed(name.as_str()).as_str()),
                            ),
                        };
                    }
                },
            },
        }
        i += 1;
    }
    None
}

/// The arguments of `ip` that list the interfaces.
pub open spec fn link_query() -> Seq<Seq<char>> {
    seq!["-o"@, "link"@, "show"@]
}

/// The arguments of `ip` that list the interfaces.
pub fn link_args() -> (r: Vec<String>)
    ensures
        texts(r@) == link_query(),
{
    let mut args: Vec<String> = Vec::new();
    args.push("-o".to_string());
    args.push("link".to_string());
    args.push("show".to_string());
    assert(texts(args@) =~= link_query());
    args
}

/// The interfaces were listed and the name read; number 0 has none.
pub open spec fn name_resolved<T: Tools>(t: &T, ifindex: u32, r: Option<Seq<char>>) -> bool {
    if ifindex == 0 {
        r is None
    } else {
        exists|reply: Result<ToolOutput, String>|
            {
                &&& #[trigger] call_ensures(T::links, (t,), reply)
                &&& r == match reply {
                    Ok(o) => name_in_lines(lines(o.stdout@), ifindex, 0),
                    Err(_) => None,
                }
            }
    }
}

/// The name of an interface.
pub fn ifindex_to_name<T: Tools>(t: &T, ifindex: u32) -> (r: Option<String>)
    ensures
        name_resolved(t, ifindex, opt_text(r)),
{
    if ifindex == 0 {
        return None;
    }
    let reply = t.links();
    assert(call_ensures(T::links, (t,), reply));
    match reply {
        Ok(o) => name_in_links(o.stdout.as_str(), ifindex),
        Err(_) => None,
    }
}

// ---- Reading backends ----

/// The backend in a JSON object.
pub open spec fn json_backend(v: JsonView) -> BackendView {
    BackendView {
        addr: array_bytes(v.at("addr"@), 16),
        port: (v.at("port"@).number() % 65536) as u16,
        family: (v.at("family"@).number() % 256) as u8,
        proto: (v.at("proto"@).number() % 256) as u8,
        ifindex: low32(v.at("ifindex"@).number()),
        weight: low32(v.at("weight"@).number()),
        backend_group: low32(v.at("backend_group"@).number()),
        flags: low32(v.at("flags"@).number()),
        mac: array_bytes(v.at("mac"@), 6),
        pad: zeros(2),
    }
}

fn low(n: u64) -> (r: u32)
    ensures
        r == low32(n),
{
    (n % 0x1_0000_0000) as u32
}

fn bytes16(v: Option<&Json>) -> (r: [u8; 16])
    ensures
        r@ == array_bytes(crate::json::or_null(v), 16),
{
    match v {
        Some(j) => addr_from_json(j),
        None => {
            let r = [0u8; 16];
            assert(r@ =~= array_bytes(JsonView::Null, 16));
            r
        },
    }
}

fn bytes6(v: Option<&Json>) -> (r: [u8; 6])
    ensures
        r@ == array_bytes(crate::json::or_null(v), 6),
{
    let a = bytes16(v);
    let r = [a[0], a[1], a[2], a[3], a[4], a[5]];
    assert(r@ =~= array_bytes(crate::json::or_null(v), 6));
    r
}

/// The backend in a JSON object.
pub fn backend_from_json(v: &Json) -> (r: Backend)
    ensures
        r@ == json_backend(v@),
{
    let r = Backend {
        addr: bytes16(v.get("addr")),
        port: (v.number_at("port") % 65536) as u16,
        family: (v.number_at("family") % 256) as u8,
        proto: (v.number_at("proto") % 256) as u8,
        ifindex: low(v.number_at("ifindex")),
        weight: low(v.number_at("weight")),
        backend_group: low(v.number_at("backend_group")),
        flags: low(v.number_at("flags")),
        mac: bytes6(v.get("mac")),
        _pad: [0u8; 2],
    };
    assert(r._pad@ =~= zeros(2));
    r
}

/// The configured backends in the entries of a dump, each with its number.
pub open spec fn configured_in(v: Seq<JsonView>) -> Seq<(u32, BackendView)>
    decreases v.len(),
{
    if v.len() == 0 {
        Seq::empty()
    } else {
        let before = configured_in(v.drop_last());
        let e = v.last();
        if json_backend(e.at("value"@)).ifindex != 0 {
            before.push((low32(e.at("key"@).number()), json_backend(e.at("value"@))))
        } else {
            before
        }
    }
}

fn backend_of_entry(e: &Json) -> (r: Backend)
    ensures
        r@ == json_backend(e@.at("value"@)),
{
    match e.get("value") {
        Some(v) => backend_from_json(v),
        None => {
            let nothing = Json::Null;
            backend_from_json(&nothing)
        },
    }
}

/// The configured backends in the entries of a dump, without interface names.
pub fn read_backends(v: &Vec<Json>) -> (r: Vec<BackendEntry>)
    ensures
        backends_of(r@) == configured_in(json_views(v@)),
{
    let mut out: Vec<BackendEntry> = Vec::new();
    let ghost all = json_views(v@);
    let mut i: usize = 0;
    assert(all.take(0) =~= Seq::empty());
    assert(backends_of(out@) =~= Seq::empty());
    while i < v.len()
        invariant
            i <= v@.len(),
            all == json_views(v@),
            backends_of(out@) == configured_in(all.take(i as int)),
        decreases v@.len() - i,
    {
        assert(all.take(i + 1).drop_last() =~= all.take(i as int));
        assert(all.take(i + 1).last() == v@[i as int]@);
        let id: u32 = low(v[i].number_at("key"));
        let backend = backend_of_entry(&v[i]);
        if backend.is_configured() {
            let ghost before = out@;
            out.push(BackendEntry { id, backend, dev_name: None });
            assert(backends_of(out@) =~= backends_of(before).push((id, backend@)));
        }
        i += 1;
    }
    assert(all.take(i as int) =~= all);
    out
}

/// Every entry has the name of its interface.
pub open spec fn names_resolved<T: Tools>(t: &T, v: Seq<BackendEntry>) -> bool {
    forall|i: int|
        0 <= i < v.len() ==> name_resolved(
            t,
            (#[trigger] v[i]).backend.ifindex,
            opt_text(v[i].dev_name),
        )
}

/// The list holds the configured backends of the dump.
pub open spec fn backends_listed<T: Tools>(
    t: &T,
    iface: Seq<char>,
    r: Result<Seq<(u32, BackendView)>, ToolErrorView>,
) -> bool {
    exists|v: Result<Seq<JsonView>, ToolErrorView>|
        #[trigger] dump_read(t, iface, LB_BACKENDS_MAP@, v) && r == match v {
            Ok(e) => Ok::<Seq<(u32, BackendView)>, ToolErrorView>(configured_in(e)),
            Err(e) => Err(e),
        }
}

pub open spec fn listing(r: Result<Vec<BackendEntry>, MapError>) -> Result<
    Seq<(u32, BackendView)>,
    ToolErrorView,
> {
    match r {
        Ok(v) => Ok(backends_of(v@)),
        Err(e) => Err(e@),
    }
}

/// Lists the configured backends.
pub fn backend_list<T: Tools>(t: &T, iface: &str) -> (r: Result<Vec<BackendEntry>, MapError>)
    ensures
        backends_listed(t, iface@, listing(r)),
        r matches Ok(v) ==> names_resolved(t, v@),
{
    let dump = dump_map(t, iface, LB_BACKENDS_MAP);
    assert(dump_read(t, iface@, LB_BACKENDS_MAP@, entries_seen(dump)));
    match dump {
        Err(e) => Err(e),
        Ok(v) => {
            let found = read_backends(&v);
            let mut out: Vec<BackendEntry> = Vec::new();
            let mut i: usize = 0;
            while i < found.len()
                invariant
                    i <= found@.len(),
                    backends_of(out@) == backends_of(found@).take(i as int),
                    names_resolved(t, out@),
                decreases found@.len() - i,
            {
                let backend = found[i].backend;
                let dev_name = ifindex_to_name(t, backend.ifindex);
                let ghost before = out@;
                let ghost pair = (found@[i as int].id, backend@);
                out.push(BackendEntry { id: found[i].id, backend, dev_name });
                assert(backends_of(out@) =~= backends_of(before).push(pair));
                assert(backends_of(found@).take(i + 1) =~= backends_of(found@).take(
                    i as int,
                ).push(pair));
                i += 1;
            }
            assert(backends_of(found@).take(i as int) =~= backends_of(found@));
            assert(backends_of(out@) == configured_in(json_views(v@)));
            Ok(out)
        },
    }
}

// ---- Numbers ----

/// The number after the largest one, as an error of this side.
pub open spec fn free_id(list: Seq<(u32, BackendView)>) -> Result<u32, ToolErrorView> {
    match next_id(list) {
        Ok(n) => Ok(n),
        Err(_) => Err(ToolErrorView::Json("no free backend id"@)),
    }
}

/// The number follows from the list that was read.
pub open spec fn id_chosen<T: Tools>(
    t: &T,
    iface: Seq<char>,
    r: Result<u32, ToolErrorView>,
) -> bool {
    exists|list: Result<Seq<(u32, BackendView)>, ToolErrorView>|
        #[trigger] backends_listed(t, iface, list) && r == match list {
            Ok(v) => free_id(v),
            Err(e) => Err(e),
        }
}

/// The number for a new backend: one more than the largest in use.
pub fn next_backend_id<T: Tools>(t: &T, iface: &str) -> (r: Result<u32, MapError>)
    ensures
        id_chosen(t, iface@, seen(r)),
{
    let list = backend_list(t, iface);
    assert(backends_listed(t, iface@, listing(list)));
    match list {
        Err(e) => Err(e),
        Ok(v) => match id_after(&v) {
            Ok(n) => Ok(n),
            Err(_) => Err(MapError::Json("no free backend id".to_string())),
        },
    }
}

// ---- Writing ----

/// The words that set the interface of a backend.
pub open spec fn devmap_args(id: u32, ifindex: u32) -> Seq<Seq<char>> {
    seq!["update"@, "key"@, "hex"@] + hex_words(le32(id)) + seq!["value"@, "hex"@] + hex_words(
        le32(ifindex),
    ) + hex_words(le32(0)) + seq!["id"@, "0"@]
}

/// The interface of a backend was set; a failure names the map.
pub open spec fn devmap_updated<T: Tools>(
    t: &T,
    iface: Seq<char>,
    id: u32,
    ifindex: u32,
    done: Seq<Edit>,
    r: Result<(), ToolErrorView>,
) -> bool {
    exists|w: Result<(), ToolErrorView>|
        #[trigger] run_on(t, iface, LB_DEV_MAP@, devmap_args(id, ifindex), done, w) && r == amended(
            w,
            LB_DEV_MAP@,
        )
}

/// A failure with the name of a map.
pub open spec fn amended(w: Result<(), ToolErrorView>, map: Seq<char>) -> Result<
    (),
    ToolErrorView,
> {
    match w {
        Ok(u) => Ok(u),
        Err(e) => Err(e.amended(map)),
    }
}

fn amend_result(w: Result<(), MapError>, map: &str) -> (r: Result<(), MapError>)
    ensures
        seen(r) == amended(seen(w), map@),
{
    match w {
        Ok(_) => Ok(()),
        Err(e) => Err(amend(e, map)),
    }
}

/// Sets the interface of a backend.
pub fn devmap_update<T: Tools, E: Editor>(
    t: &T,
    w: &mut Edits<E>,
    iface: &str,
    backend_id: u32,
    ifindex: u32,
) -> (r: Result<(), MapError>)
    ensures
        extends(old(w).runs(), final(w).runs()),
        final(w).editor() == old(w).editor(),
        devmap_updated(
            t,
            iface@,
            backend_id,
            ifindex,
            since(old(w).runs(), final(w).runs()),
            seen(r),
        ),
{
    let mut args: Vec<String> = Vec::new();
    assert(texts(args@) =~= Seq::empty());
    let head: Vec<&'static str> = vec!["update", "key", "hex"];
    assert(word_texts(head@) =~= seq!["update"@, "key"@, "hex"@]);
    push_words(&mut args, &head);
    push_texts(&mut args, &to_hex_bytes(&number_key(backend_id)));
    let middle: Vec<&'static str> = vec!["value", "hex"];
    assert(word_texts(middle@) =~= seq!["value"@, "hex"@]);
    push_words(&mut args, &middle);
    push_texts(&mut args, &to_hex_bytes(&number_key(ifindex)));
    push_texts(&mut args, &to_hex_bytes(&number_key(0)));
    let end: Vec<&'static str> = vec!["id", "0"];
    assert(word_texts(end@) =~= seq!["id"@, "0"@]);
    push_words(&mut args, &end);
    assert(texts(args@) =~= devmap_args(backend_id, ifindex));
    let ghost before = w.runs();
    let done = bpftool_run(t, w, iface, LB_DEV_MAP, &args);
    assert(run_on(
        t,
        iface@,
        LB_DEV_MAP@,
        devmap_args(backend_id, ifindex),
        since(before, w.runs()),
        seen(done),
    ));
    amend_result(done, LB_DEV_MAP)
}

/// An entry of a map was set; a failure names the map.
pub open spec fn entry_set<T: Tools>(
    t: &T,
    iface: Seq<char>,
    map: Seq<char>,
    key: Seq<u8>,
    value: Seq<u8>,
    done: Seq<Edit>,
    r: Result<(), ToolErrorView>,
) -> bool {
    exists|w: Result<(), ToolErrorView>|
        #[trigger] updated(t, iface, map, key, value, done, w) && r == amended(w, map)
}

fn set_entry<T: Tools, E: Editor>(
    t: &T,
    w: &mut Edits<E>,
    iface: &str,
    map: &str,
    key: &Vec<u8>,
    value: &Vec<u8>,
) -> (r: Result<(), MapError>)
    ensures
        extends(old(w).runs(), final(w).runs()),
        final(w).editor() == old(w).editor(),
        entry_set(
            t,
            iface@,
            map@,
            key@,
            value@,
            since(old(w).runs(), final(w).runs()),
            seen(r),
        ),
        r is Ok ==> since(old(w).runs(), final(w).runs()).len() == 1,
{
    let ghost before = w.runs();
    let done = map_update(t, w, iface, map, key, value);
    assert(updated(t, iface@, map@, key@, value@, since(before, w.runs()), seen(done)));
    amend_result(done, map)
}

/// The interface was set; a failure names the map a second time.
pub open spec fn devmap_amended<T: Tools>(
    t: &T,
    iface: Seq<char>,
    id: u32,
    ifindex: u32,
    done: Seq<Edit>,
    r: Result<(), ToolErrorView>,
) -> bool {
    exists|w: Result<(), ToolErrorView>|
        #[trigger] devmap_updated(t, iface, id, ifindex, done, w) && r == amended(w, LB_DEV_MAP@)
}

fn set_interface<T: Tools, E: Editor>(
    t: &T,
    w: &mut Edits<E>,
    iface: &str,
    id: u32,
    ifindex: u32,
) -> (r: Result<(), MapError>)
    ensures
        extends(old(w).runs(), final(w).runs()),
        final(w).editor() == old(w).editor(),
        devmap_amended(
            t,
            iface@,
            id,
            ifindex,
            since(old(w).runs(), final(w).runs()),
            seen(r),
        ),
        r is Ok ==> since(old(w).runs(), final(w).runs()).len() == 1,
{
    let ghost before = w.runs();
    let done = devmap_update(t, w, iface, id, ifindex);
    assert(devmap_updated(t, iface@, id, ifindex, since(before, w.runs()), seen(done)));
    amend_result(done, LB_DEV_MAP)
}

/// The entry of the backend was set.
pub open spec fn slot_set<T: Tools>(
    t: &T,
    iface: Seq<char>,
    backend: BackendView,
    id: u32,
    done: Seq<Edit>,
    r: Result<(), ToolErrorView>,
) -> bool {
    entry_set(t, iface, LB_BACKENDS_MAP@, le32(id), backend.bytes(), done, r)
}

/// The number of backends was set to one more than `id`.
pub open spec fn meta_set<T: Tools>(
    t: &T,
    iface: Seq<char>,
    id: u32,
    done: Seq<Edit>,
    r: Result<(), ToolErrorView>,
) -> bool {
    entry_set(t, iface, LB_META_MAP@, le32(0), le32((id + 1) as u32) + le32(0), done, r)
}

/// A backend was stored under a number: its entry, its interface, and the
/// number of backends, one run each, until one failed.
pub open spec fn backend_stored<T: Tools>(
    t: &T,
    iface: Seq<char>,
    backend: BackendView,
    id: u32,
    done: Seq<Edit>,
    r: Result<u32, ToolErrorView>,
) -> bool {
    ||| r matches Err(e) && slot_set(t, iface, backend, id, done, Err(e))
    ||| {
        &&& done.len() >= 1
        &&& slot_set(t, iface, backend, id, done.take(1), Ok(()))
        &&& r matches Err(e)
        &&& devmap_amended(t, iface, id, backend.ifindex, done.skip(1), Err(e))
    }
    ||| {
        &&& done.len() >= 2
        &&& slot_set(t, iface, backend, id, done.take(1), Ok(()))
        &&& devmap_amended(t, iface, id, backend.ifindex, done.subrange(1, 2), Ok(()))
        &&& match r {
            Ok(n) => n == id && meta_set(t, iface, id, done.skip(2), Ok(())),
            Err(e) => meta_set(t, iface, id, done.skip(2), Err(e)),
        }
    }
}

fn store_backend<T: Tools, E: Editor>(
    t: &T,
    w: &mut Edits<E>,
    iface: &str,
    backend: &Backend,
    id: u32,
) -> (r: Result<u32, MapError>)
    requires
        id < u32::MAX,
    ensures
        extends(old(w).runs(), final(w).runs()),
        final(w).editor() == old(w).editor(),
        backend_stored(
            t,
            iface@,
            backend@,
            id,
            since(old(w).runs(), final(w).runs()),
            seen(r),
        ),
{
    let ghost w0 = w.runs();
    let first = set_entry(
        t,
        w,
        iface,
        LB_BACKENDS_MAP,
        &number_key(id),
        &backend_to_bytes(backend),
    );
    let ghost w1 = w.runs();
    assert(slot_set(t, iface@, backend@, id, since(w0, w1), seen(first)));
    if let Err(e) = first {
        return Err(e);
    }
    let second = set_interface(t, w, iface, id, backend.ifindex);
    let ghost w2 = w.runs();
    proof {
        lemma_since(w0, w1, w2);
        assert(since(w0, w2).take(1) =~= since(w0, w1));
        assert(since(w0, w2).skip(1) =~= since(w1, w2));
    }
    if let Err(e) = second {
        return Err(e);
    }
    let third = set_entry(t, w, iface, LB_META_MAP, &number_key(0), &number_pair(id + 1, 0));
    let ghost w3 = w.runs();
    assert(meta_set(t, iface@, id, since(w2, w3), seen(third)));
    proof {
        lemma_since(w0, w2, w3);
        assert(since(w0, w3).take(1) =~= since(w0, w1));
        assert(since(w0, w3).subrange(1, 2) =~= since(w1, w2));
        assert(since(w0, w3).skip(2) =~= since(w2, w3));
    }
    match third {
        Ok(_) => Ok(id),
        Err(e) => Err(e),
    }
}

/// A backend was added under the next number on an interface; nothing is run
/// where there is no number for it.
pub open spec fn added_on<T: Tools>(
    t: &T,
    iface: Seq<char>,
    spec: BackendSpec,
    ifindex: u32,
    done: Seq<Edit>,
    r: Result<u32, ToolErrorView>,
) -> bool {
    exists|id: Result<u32, ToolErrorView>|
        {
            &&& #[trigger] id_chosen(t, iface, id)
            &&& match id {
                Err(e) => r == Err::<u32, ToolErrorView>(e) && done.len() == 0,
                Ok(n) => if n == u32::MAX {
                    &&& r == Err::<u32, ToolErrorView>(ToolErrorView::Json("no free backend id"@))
                    &&& done.len() == 0
                } else {
                    backend_stored(t, iface, spec.backend(ifindex), n, done, r)
                },
            }
        }
}

/// A backend was added, or the first failure handed on; nothing is run for an
/// interface that was not found.
pub open spec fn backend_added<T: Tools>(
    t: &T,
    iface: Seq<char>,
    spec: BackendSpec,
    done: Seq<Edit>,
    r: Result<u32, ToolErrorView>,
) -> bool {
    exists|index: Result<u32, Seq<char>>|
        {
            &&& #[trigger] interface_resolved(t, spec.dev@, index)
            &&& match index {
                Err(m) => r == Err::<u32, ToolErrorView>(ToolErrorView::Json(m)) && done.len()
                    == 0,
                Ok(n) => added_on(t, iface, spec, n, done, r),
            }
        }
}

/// Adds a backend and returns its number.
pub fn backend_add<T: Tools, E: Editor>(
    t: &T,
    w: &mut Edits<E>,
    iface: &str,
    spec: &BackendSpec,
) -> (r: Result<u32, MapError>)
    ensures
        extends(old(w).runs(), final(w).runs()),
        final(w).editor() == old(w).editor(),
        backend_added(t, iface@, *spec, since(old(w).runs(), final(w).runs()), seen(r)),
{
    let ghost start = w.runs();
    proof {
        lemma_same(start);
    }
    let index = ifindex(t, spec.dev.as_str());
    assert(interface_resolved(t, spec.dev@, index_view(index)));
    let on = match index {
        Ok(n) => n,
        Err(e) => {
            return Err(MapError::Json(e));
        },
    };
    let chosen = next_backend_id(t, iface);
    assert(id_chosen(t, iface@, seen(chosen)));
    match chosen {
        Err(e) => {
            assert(added_on(t, iface@, *spec, on, since(start, w.runs()), Err(e@)));
            Err(e)
        },
        Ok(id) => {
            if id == u32::MAX {
                let e = MapError::Json("no free backend id".to_string());
                assert(added_on(t, iface@, *spec, on, since(start, w.runs()), Err(e@)));
                return Err(e);
            }
            let backend = spec.build(on);
            let r = store_backend(t, w, iface, &backend, id);
            assert(added_on(t, iface@, *spec, on, since(start, w.runs()), seen(r)));
            r
        },
    }
}

/// The slot of a backend was made unused.
pub open spec fn slot_cleared<T: Tools>(
    t: &T,
    iface: Seq<char>,
    id: u32,
    done: Seq<Edit>,
    r: Result<(), ToolErrorView>,
) -> bool {
    updated(t, iface, LB_BACKENDS_MAP@, le32(id), no_backend().bytes(), done, r)
}

/// A backend was taken away: its slot made unused, its interface deleted, one
/// run each, until one failed.
pub open spec fn backend_removed<T: Tools>(
    t: &T,
    iface: Seq<char>,
    id: u32,
    done: Seq<Edit>,
    r: Result<(), ToolErrorView>,
) -> bool {
    ||| r is Err && slot_cleared(t, iface, id, done, r)
    ||| {
        &&& done.len() >= 1
        &&& slot_cleared(t, iface, id, done.take(1), Ok(()))
        &&& deleted(t, iface, LB_DEV_MAP@, le32(id), done.skip(1), r)
    }
}

fn remove_backend<T: Tools, E: Editor>(t: &T, w: &mut Edits<E>, iface: &str, id: u32) -> (r: Result<
    (),
    MapError,
>)
    ensures
        extends(old(w).runs(), final(w).runs()),
        final(w).editor() == old(w).editor(),
        backend_removed(t, iface@, id, since(old(w).runs(), final(w).runs()), seen(r)),
        r is Ok ==> since(old(w).runs(), final(w).runs()).len() == 2,
{
    let ghost w0 = w.runs();
    let zero = Backend::default();
    let first = map_update(t, w, iface, LB_BACKENDS_MAP, &number_key(id), &backend_to_bytes(&zero));
    let ghost w1 = w.runs();
    assert(slot_cleared(t, iface@, id, since(w0, w1), seen(first)));
    match first {
        Err(e) => Err(e),
        Ok(_) => {
            let r = map_delete(t, w, iface, LB_DEV_MAP, &number_key(id));
            let ghost w2 = w.runs();
            proof {
                lemma_since(w0, w1, w2);
                assert(since(w0, w2).take(1) =~= since(w0, w1));
                assert(since(w0, w2).skip(1) =~= since(w1, w2));
            }
            r
        },
    }
}

/// A backend was taken away, if there is one of the number; else nothing is run.
pub open spec fn backend_deleted<T: Tools>(
    t: &T,
    iface: Seq<char>,
    id: u32,
    done: Seq<Edit>,
    r: Result<(), ToolErrorView>,
) -> bool {
    exists|list: Result<Seq<(u32, BackendView)>, ToolErrorView>|
        {
            &&& #[trigger] backends_listed(t, iface, list)
            &&& match list {
                Err(e) => r == Err::<(), ToolErrorView>(e) && done.len() == 0,
                Ok(v) => if has_id(v, id) {
                    backend_removed(t, iface, id, done, r)
                } else {
                    &&& r == Err::<(), ToolErrorView>(
                        ToolErrorView::Json("backend with id="@ + decimal(id as int) + " not found"@),
                    )
                    &&& done.len() == 0
                },
            }
        }
}

/// Takes a backend away.
pub fn backend_delete<T: Tools, E: Editor>(t: &T, w: &mut Edits<E>, iface: &str, id: u32) -> (r:
    Result<(), MapError>)
    ensures
        extends(old(w).runs(), final(w).runs()),
        final(w).editor() == old(w).editor(),
        backend_deleted(t, iface@, id, since(old(w).runs(), final(w).runs()), seen(r)),
{
    proof {
        lemma_same(w.runs());
    }
    let list = backend_list(t, iface);
    assert(backends_listed(t, iface@, listing(list)));
    match list {
        Err(e) => Err(e),
        Ok(v) => {
            if !list_has_id(&v, id) {
                let mut m = "backend with id=".to_string();
                push_decimal(&mut m, id as u64);
                m.append(" not found");
                return Err(MapError::Json(m));
            }
            remove_backend(t, w, iface, id)
        },
    }
}

/// The first `n` backends of the list were taken away in order, two runs each.
pub open spec fn all_removed<T: Tools>(
    t: &T,
    iface: Seq<char>,
    v: Seq<(u32, BackendView)>,
    n: int,
    done: Seq<Edit>,
) -> bool {
    &&& done.len() == 2 * n
    &&& forall|i: int|
        0 <= i < n ==> backend_removed(
            t,
            iface,
            (#[trigger] v[i]).0,
            done.subrange(2 * i, 2 * i + 2),
            Ok(()),
        )
}

/// Taking the `n`-th backend of the list away failed, and those before it were
/// taken away.
pub open spec fn removal_failed<T: Tools>(
    t: &T,
    iface: Seq<char>,
    v: Seq<(u32, BackendView)>,
    n: int,
    done: Seq<Edit>,
    e: ToolErrorView,
) -> bool {
    &&& 0 <= n < v.len()
    &&& 2 * n <= done.len()
    &&& all_removed(t, iface, v, n, done.take(2 * n))
    &&& backend_removed(t, iface, v[n].0, done.skip(2 * n), Err(e))
}

/// The backends of the list were taken away in order until one failed.
pub open spec fn list_flushed<T: Tools>(
    t: &T,
    iface: Seq<char>,
    v: Seq<(u32, BackendView)>,
    done: Seq<Edit>,
    r: Result<usize, ToolErrorView>,
) -> bool {
    match r {
        Ok(n) => n == v.len() && all_removed(t, iface, v, v.len() as int, done),
        Err(e) => exists|n: int| #[trigger] removal_failed(t, iface, v, n, done, e),
    }
}

/// All backends were taken away; their number is returned.
pub open spec fn backends_flushed<T: Tools>(
    t: &T,
    iface: Seq<char>,
    done: Seq<Edit>,
    r: Result<usize, ToolErrorView>,
) -> bool {
    exists|list: Result<Seq<(u32, BackendView)>, ToolErrorView>|
        {
            &&& #[trigger] backends_listed(t, iface, list)
            &&& match list {
                Err(e) => r == Err::<usize, ToolErrorView>(e) && done.len() == 0,
                Ok(v) => list_flushed(t, iface, v, done, r),
            }
        }
}

fn flush_list<T: Tools, E: Editor>(
    t: &T,
    w: &mut Edits<E>,
    iface: &str,
    list: &Vec<BackendEntry>,
) -> (r: Result<usize, MapError>)
    ensures
        extends(old(w).runs(), final(w).runs()),
        final(w).editor() == old(w).editor(),
        list_flushed(
            t,
            iface@,
            backends_of(list@),
            since(old(w).runs(), final(w).runs()),
            seen(r),
        ),
{
    let ghost start = w.runs();
    let ghost v = backends_of(list@);
    proof {
        lemma_same(start);
    }
    let mut i: usize = 0;
    while i < list.len()
        invariant
            i <= list@.len(),
            v == backends_of(list@),
            start == old(w).runs(),
            w.editor() == old(w).editor(),
            extends(start, w.runs()),
            all_removed(t, iface@, v, i as int, since(start, w.runs())),
        decreases list@.len() - i,
    {
        let ghost before = w.runs();
        let done = remove_backend(t, w, iface, list[i].id);
        proof {
            lemma_since(start, before, w.runs());
            let all = since(start, w.runs());
            assert(all.take(2 * i) =~= since(start, before));
            assert(all.skip(2 * i) =~= since(before, w.runs()));
            assert(v[i as int].0 == list@[i as int].id);
            assert(backend_removed(t, iface@, v[i as int].0, all.skip(2 * i), seen(done)));
        }
        if let Err(e) = done {
            assert(removal_failed(t, iface@, v, i as int, since(start, w.runs()), e@));
            return Err(e);
        }
        proof {
            let all = since(start, w.runs());
            assert forall|j: int| 0 <= j < i + 1 implies backend_removed(
                t,
                iface@,
                (#[trigger] v[j]).0,
                all.subrange(2 * j, 2 * j + 2),
                Ok(()),
            ) by {
                if j < i {
                    assert(all.subrange(2 * j, 2 * j + 2) =~= since(start, before).subrange(
                        2 * j,
                        2 * j + 2,
                    ));
                } else {
                    assert(all.subrange(2 * j, 2 * j + 2) =~= all.skip(2 * i));
                }
            }
        }
        i += 1;
    }
    Ok(list.len())
}

/// Takes all backends away and returns how many there were.
pub fn backend_flush<T: Tools, E: Editor>(t: &T, w: &mut Edits<E>, iface: &str) -> (r: Result<
    usize,
    MapError,
>)
    ensures
        extends(old(w).runs(), final(w).runs()),
        final(w).editor() == old(w).editor(),
        backends_flushed(t, iface@, since(old(w).runs(), final(w).runs()), seen(r)),
{
    proof {
        lemma_same(w.runs());
    }
    let list = backend_list(t, iface);
    assert(backends_listed(t, iface@, listing(list)));
    match list {
        Err(e) => {
            assert(backends_listed(t, iface@, Err(e@)));
            Err(e)
        },
        Ok(v) => flush_list(t, w, iface, &v),
    }
}

/// The bytes of a backend as a text, for debugging.
pub fn backend_to_hex<T: Tools>(t: &T, spec: &BackendSpec) -> (r: Result<String, String>)
    ensures
        exists|index: Result<u32, Seq<char>>|
            {
                &&& #[trigger] interface_resolved(t, spec.dev@, index)
                &&& told(r) == match index {
                    Ok(n) => Ok::<Seq<char>, Seq<char>>(hex_bytes(spec.backend(n).bytes())),
                    Err(m) => Err(m),
                }
            },
{
    let index = ifindex(t, spec.dev.as_str());
    assert(interface_resolved(t, spec.dev@, index_view(index)));
    match index {
        Ok(n) => Ok(backend_hex(spec, n)),
        Err(e) => Err(e),
    }
}

} // verus!
