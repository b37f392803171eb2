//! Access to the loaded maps by name.
use vstd::prelude::*;
use vstd::string::StringExecFns;

use crate::daemon::session::{open, Attempt, Session, Writer};
use crate::trace::{extends, lemma_push, lemma_same, lemma_since, since};
use crate::text::same;

verus! {

/// Map of the L4 ACL (longest-prefix trie).
pub const L4_ACL_MAP: &'static str = "l4_acl";
/// Map of the counters (one array per CPU).
pub const COUNTERS_MAP: &'static str = "counters";
/// Map of the tracked connections.
pub const CONNTRACK_MAP: &'static str = "conntrack";
/// Map of the token buckets.
pub const RATE_LIMIT_MAP: &'static str = "rate_limit";
/// Map of the VLAN ACL.
pub const VLAN_ACL_MAP: &'static str = "vlan_acl";
/// Map with the bit mask of published event kinds.
pub const EVENT_MASK_MAP: &'static str = "event_mask";

/// Why a map operation failed.
#[derive(Debug)]
pub enum MapError {
    /// A kernel call failed.
    Libbpf(String),
    /// Input could not be understood.
    Json(String),
    /// There is no map of a name.
    NotFound(String),
    /// A file could not be read.
    Io(String),
}

/// The text of an error, and which error it is.
pub enum ErrorView {
    Libbpf(Seq<char>),
    Json(Seq<char>),
    NotFound(Seq<char>),
    Io(Seq<char>),
}

impl View for MapError {
    type V = ErrorView;

    open spec fn view(&self) -> ErrorView {
        match self {
            MapError::Libbpf(s) => ErrorView::Libbpf(s@),
            MapError::Json(s) => ErrorView::Json(s@),
            MapError::NotFound(s) => ErrorView::NotFound(s@),
            MapError::Io(s) => ErrorView::Io(s@),
        }
    }
}

impl ErrorView {
    pub open spec fn message(self) -> Seq<char> {
        match self {
            ErrorView::Libbpf(s) => "libbpf error: "@ + s,
            ErrorView::Json(s) => "parse error: "@ + s,
            ErrorView::NotFound(s) => "not found: "@ + s,
            ErrorView::Io(s) => "io error: "@ + s,
        }
    }

    /// The error with the name of a map before its text.
    pub open spec fn amended(self, map: Seq<char>) -> ErrorView {
        match self {
            ErrorView::Libbpf(s) => ErrorView::Libbpf("["@ + map + "] "@ + s),
            ErrorView::Json(s) => ErrorView::Json("["@ + map + "] "@ + s),
            ErrorView::NotFound(s) => ErrorView::NotFound("["@ + map + "] "@ + s),
            ErrorView::Io(s) => ErrorView::Io(s),
        }
    }
}

impl MapError {
    /// The error as a text.
    pub fn message(&self) -> (r: String)
        ensures
            r@ == self@.message(),
    {
        match self {
            MapError::Libbpf(s) => {
                let mut m = "libbpf error: ".to_string();
                m.append(s.as_str());
                m
            },
            MapError::Json(s) => {
                let mut m = "parse error: ".to_string();
                m.append(s.as_str());
                m
            },
            MapError::NotFound(s) => {
                let mut m = "not found: ".to_string();
                m.append(s.as_str());
                m
            },
            MapError::Io(s) => {
                let mut m = "io error: ".to_string();
                m.append(s.as_str());
                m
            },
        }
    }
}

fn tagged(map: &str, s: &str) -> (r: String)
    ensures
        r@ == "["@ + map@ + "] "@ + s@,
{
    let mut m = "[".to_string();
    m.append(map);
    m.append("] ");
    m.append(s);
    m
}

/// Puts the name of a map before the text of an error.
pub fn amend(e: MapError, map: &str) -> (r: MapError)
    ensures
        r@ == e@.amended(map@),
{
    match e {
        MapError::Libbpf(s) => MapError::Libbpf(tagged(map, s.as_str())),
        MapError::Json(s) => MapError::Json(tagged(map, s.as_str())),
        MapError::NotFound(s) => MapError::NotFound(tagged(map, s.as_str())),
        MapError::Io(s) => MapError::Io(s),
    }
}

/// What `r` says, its error by view.
pub open spec fn seen<T>(r: Result<T, MapError>) -> Result<T, ErrorView> {
    match r {
        Ok(t) => Ok(t),
        Err(e) => Err(e@),
    }
}

/// A key of a map and the value found for it, if it was still there.
#[derive(Debug)]
pub struct Record {
    pub key: Vec<u8>,
    pub value: Option<Vec<u8>>,
}

/// A key of the counter map and what was found for it: one value, or one for
/// each CPU.
#[derive(Debug)]
pub struct Cell {
    pub key: Vec<u8>,
    pub values: Option<Vec<Vec<u8>>>,
}

/// The kernel's side of the maps. A loaded map is known by its number. Nothing
/// is assumed of what the kernel answers.
pub trait Kernel {
    /// The number of the loaded map that follows a number.
    fn next_map_id(&self, after: u32) -> Option<u32>;

    /// The name of a map, where it can be opened and its name is a text.
    fn map_name(&self, id: u32) -> Option<String>;

    /// All keys of a map.
    fn keys(&self, id: u32) -> Vec<Vec<u8>>;

    /// Whether a map holds a value for each CPU.
    fn is_percpu(&self, id: u32) -> bool;

    /// The value of a key, in a map that holds one value.
    fn lookup(&self, id: u32, key: Vec<u8>) -> Result<Option<Vec<u8>>, MapError>;

    /// The values of a key, in a map that holds one for each CPU.
    fn lookup_percpu(&self, id: u32, key: Vec<u8>) -> Result<Option<Vec<Vec<u8>>>, MapError>;
}

/// Where a walk has come to.
pub open spec fn reached(ids: Seq<u32>) -> u32 {
    if ids.len() == 0 {
        0
    } else {
        ids.last()
    }
}

/// The walk over the loaded maps went through `ids`.
pub open spec fn walked<K: Kernel>(k: &K, ids: Seq<u32>) -> bool {
    &&& ids.no_duplicates()
    &&& forall|i: int|
        0 <= i < ids.len() ==> call_ensures(
            K::next_map_id,
            (k, reached(ids.take(i))),
            Some(#[trigger] ids[i]),
        )
}

/// A map was asked for its name, and whether that is `name` came out.
pub open spec fn named<K: Kernel>(k: &K, id: u32, name: Seq<char>, is: bool) -> bool {
    exists|n: Option<String>|
        {
            &&& #[trigger] call_ensures(K::map_name, (k, id), n)
            &&& is == (n is Some && n->0@ == name)
        }
}

pub open spec fn no_map(name: Seq<char>) -> ErrorView {
    ErrorView::NotFound("could not find BPF map named '"@ + name + "' among loaded maps"@)
}

/// The walk was followed until a map had the name; it has none where the walk
/// ended or came back to a map it had seen.
#[verifier::opaque]
pub open spec fn opened<K: Kernel>(k: &K, name: Seq<char>, r: Result<u32, ErrorView>) -> bool {
    exists|ids: Seq<u32>|
        {
            &&& #[trigger] walked(k, ids)
            &&& match r {
                Ok(id) => {
                    &&& ids.len() > 0 && id == ids.last()
                    &&& named(k, id, name, true)
                    &&& forall|i: int|
                        0 <= i < ids.len() - 1 ==> named(k, #[trigger] ids[i], name, false)
                },
                Err(e) => {
                    &&& e == no_map(name)
                    &&& forall|i: int|
                        0 <= i < ids.len() ==> named(k, #[trigger] ids[i], name, false)
                    &&& exists|next: Option<u32>|
                        {
                            &&& #[trigger] call_ensures(
                                K::next_map_id,
                                (k, reached(ids)),
                                next,
                            )
                            &&& next is None || ids.contains(next->0)
                        }
                },
            }
        }
}

proof fn lemma_u32_seq_bound(ids: Seq<u32>)
    requires
        ids.no_duplicates(),
    ensures
        ids.len() <= 0x1_0000_0000,
{
    let ints = ids.map_values(|x: u32| x as int);
    assert(ints.no_duplicates()) by {
        assert forall|i: int, j: int|
            0 <= i < ints.len() && 0 <= j < ints.len() && i != j implies ints[i] != ints[j] by {
            assert(ids[i] != ids[j]);
        }
    }
    ints.unique_seq_to_set();
    let all = vstd::set_lib::set_int_range(0, 0x1_0000_0000);
    vstd::set_lib::lemma_int_range(0, 0x1_0000_0000);
    assert(ints.to_set().subset_of(all)) by {
        assert forall|x: int| ints.to_set().contains(x) implies all.contains(x) by {
            let i = choose|i: int| 0 <= i < ints.len() && ints[i] == x;
            assert(x == ids[i] as int);
        }
    }
    vstd::set_lib::lemma_len_subset(ints.to_set(), all);
}

fn contains_id(ids: &Vec<u32>, id: u32) -> (r: bool)
    ensures
        r == ids@.contains(id),
{
    let mut i: usize = 0;
    while i < ids.len()
        invariant
            i <= ids@.len(),
            forall|j: int| 0 <= j < i ==> ids@[j] != id,
        decreases ids@.len() - i,
    {
        if ids[i] == id {
            return true;
        }
        i += 1;
    }
    false
}

/// Finds a loaded map by name.
pub fn open_map_by_name<K: Kernel>(k: &K, name: &str) -> (r: Result<u32, MapError>)
    ensures
        opened(k, name@, seen(r)),
{
    reveal(opened);
    let mut ids: Vec<u32> = Vec::new();
    let mut after: u32 = 0;
    let mut more = true;
    assert(walked(k, ids@));
    while more
        invariant
            walked(k, ids@),
            after == reached(ids@),
            forall|i: int| 0 <= i < ids@.len() ==> named(k, #[trigger] ids@[i], name@, false),
            !more ==> exists|next: Option<u32>|
                {
                    &&& #[trigger] call_ensures(K::next_map_id, (k, after), next)
                    &&& next is None || ids@.contains(next->0)
                },
        decreases 0x1_0000_0000 - ids@.len(),
            if more {
                1int
            } else {
                0
            },
    {
        reveal(opened);
        proof {
            lemma_u32_seq_bound(ids@);
        }
        let next = k.next_map_id(after);
        assert(call_ensures(K::next_map_id, (k, after), next));
        match next {
            None => {
                more = false;
            },
            Some(id) => {
                if contains_id(&ids, id) {
                    more = false;
                } else {
                    let ghost before = ids@;
                    ids.push(id);
                    proof {
                        lemma_u32_seq_bound(ids@);
                        assert(ids@ =~= before.push(id));
                        assert forall|i: int| 0 <= i < ids@.len() implies call_ensures(
                            K::next_map_id,
                            (k, reached(ids@.take(i))),
                            Some(#[trigger] ids@[i]),
                        ) by {
                            assert(ids@.take(i) =~= before.take(i));
                            if i < before.len() {
                                assert(before[i] == ids@[i]);
                            } else {
                                assert(before.take(i) =~= before);
                            }
                        }
                    }
                    after = id;
                    let found = k.map_name(id);
                    let is = match &found {
                        Some(n) => same(n.as_str(), name),
                        None => false,
                    };
                    assert(call_ensures(K::map_name, (k, id), found));
                    assert(named(k, id, name@, is));
                    if is {
                        proof {
                            assert forall|i: int| 0 <= i < ids@.len() - 1 implies named(
                                k,
                                #[trigger] ids@[i],
                                name@,
                                false,
                            ) by {
                                assert(before[i] == ids@[i]);
                            }
                            assert(walked(k, ids@));
                        }
                        return Ok(id);
                    }
                    proof {
                        assert forall|i: int| 0 <= i < ids@.len() implies named(
                            k,
                            #[trigger] ids@[i],
                            name@,
                            false,
                        ) by {
                            if i < before.len() {
                                assert(before[i] == ids@[i]);
                            }
                        }
                    }
                }
            },
        }
    }
    let mut m = "could not find BPF map named '".to_string();
    m.append(name);
    m.append("' among loaded maps");
    assert(walked(k, ids@));
    Err(MapError::NotFound(m))
}

/// The map `map` was asked for the value of a key.
pub open spec fn looked_up_in<K: Kernel>(
    k: &K,
    map: u32,
    key: Seq<u8>,
    r: Result<Option<Vec<u8>>, ErrorView>,
) -> bool {
    exists|b: Vec<u8>, reply: Result<Option<Vec<u8>>, MapError>|
        {
            &&& b@ == key
            &&& #[trigger] call_ensures(K::lookup, (k, map, b), reply)
            &&& r == seen(reply)
        }
}

/// The map was opened and asked for the value of a key.
#[verifier::opaque]
pub open spec fn looked_up<K: Kernel>(
    k: &K,
    name: Seq<char>,
    key: Seq<u8>,
    r: Result<Option<Vec<u8>>, ErrorView>,
) -> bool {
    exists|id: Result<u32, ErrorView>|
        {
            &&& #[trigger] opened(k, name, id)
            &&& match id {
                Err(e) => r == Err::<Option<Vec<u8>>, ErrorView>(e),
                Ok(map) => looked_up_in(k, map, key, r),
            }
        }
}

/// Looks a key up.
pub fn map_lookup<K: Kernel>(k: &K, map_name: &str, key: Vec<u8>) -> (r: Result<
    Option<Vec<u8>>,
    MapError,
>)
    ensures
        looked_up(k, map_name@, key@, seen(r)),
{
    reveal(looked_up);
    let map = open_map_by_name(k, map_name);
    assert(opened(k, map_name@, seen(map)));
    match map {
        Err(e) => {
            assert(opened(k, map_name@, Err(e@)));
            Err(e)
        },
        Ok(id) => {
            let reply = k.lookup(id, key);
            assert(looked_up_in(k, id, key@, seen(reply)));
            reply
        },
    }
}

/// A value, or that there is none, was found for a key.
pub open spec fn found_in<K: Kernel>(k: &K, map: u32, key: Seq<u8>) -> bool {
    exists|v: Option<Vec<u8>>| #[trigger] looked_up_in(k, map, key, Ok(v))
}

/// The keys were looked up in order; the one at `n` failed.
pub open spec fn lookup_failed<K: Kernel>(
    k: &K,
    map: u32,
    keys: Seq<Vec<u8>>,
    n: int,
    e: ErrorView,
) -> bool {
    &&& 0 <= n < keys.len()
    &&& looked_up_in(k, map, keys[n]@, Err(e))
    &&& forall|i: int| 0 <= i < n ==> found_in(k, map, (#[trigger] keys[i])@)
}

/// A record holds a key and what was found for it.
pub open spec fn record_found<K: Kernel>(k: &K, map: u32, key: Seq<u8>, record: Record) -> bool {
    record.key@ == key && looked_up_in(k, map, key, Ok(record.value))
}

/// Every key was looked up, or all up to the first that failed.
pub open spec fn all_looked_up<K: Kernel>(
    k: &K,
    map: u32,
    keys: Seq<Vec<u8>>,
    r: Result<Seq<Record>, ErrorView>,
) -> bool {
    match r {
        Ok(v) => v.len() == keys.len() && forall|i: int|
            0 <= i < v.len() ==> record_found(k, map, keys[i]@, #[trigger] v[i]),
        Err(e) => exists|n: int| #[trigger] lookup_failed(k, map, keys, n, e),
    }
}

/// All records of the map `map` were read.
pub open spec fn read_from<K: Kernel>(k: &K, map: u32, r: Result<Seq<Record>, ErrorView>) -> bool {
    exists|keys: Vec<Vec<u8>>|
        #[trigger] call_ensures(K::keys, (k, map), keys) && all_looked_up(k, map, keys@, r)
}

/// The map was opened and all of its records read.
#[verifier::opaque]
pub open spec fn read<K: Kernel>(
    k: &K,
    name: Seq<char>,
    r: Result<Seq<Record>, ErrorView>,
) -> bool {
    exists|id: Result<u32, ErrorView>|
        {
            &&& #[trigger] opened(k, name, id)
            &&& match id {
                Err(e) => r == Err::<Seq<Record>, ErrorView>(e),
                Ok(map) => read_from(k, map, r),
            }
        }
}

/// The records of a list by view.
pub open spec fn listed(r: Result<Vec<Record>, MapError>) -> Result<Seq<Record>, ErrorView> {
    match r {
        Ok(v) => Ok(v@),
        Err(e) => Err(e@),
    }
}

pub(crate) fn copy_bytes(v: &Vec<u8>) -> (r: Vec<u8>)
    ensures
        r@ == v@,
{
    let mut out: Vec<u8> = Vec::new();
    crate::bytes::push_all(&mut out, v.as_slice());
    assert(out@ =~= v@);
    out
}

fn read_records<K: Kernel>(k: &K, map: u32) -> (r: Result<Vec<Record>, MapError>)
    ensures
        read_from(k, map, listed(r)),
{
    let keys = k.keys(map);
    assert(call_ensures(K::keys, (k, map), keys));
    let mut out: Vec<Record> = Vec::new();
    let mut i: usize = 0;
    while i < keys.len()
        invariant
            i <= keys@.len(),
            out@.len() == i,
            call_ensures(K::keys, (k, map), keys),
            forall|j: int|
                0 <= j < i ==> record_found(k, map, keys@[j]@, #[trigger] out@[j]),
        decreases keys@.len() - i,
    {
        let key = copy_bytes(&keys[i]);
        let reply = k.lookup(map, key);
        assert(call_ensures(K::lookup, (k, map, key), reply));
        assert(looked_up_in(k, map, keys@[i as int]@, seen(reply)));
        match reply {
            Err(e) => {
                proof {
                    assert forall|j: int| 0 <= j < i implies found_in(
                        k,
                        map,
                        (#[trigger] keys@[j])@,
                    ) by {
                        assert(record_found(k, map, keys@[j]@, out@[j]));
                    }
                    assert(lookup_failed(k, map, keys@, i as int, e@));
                }
                return Err(e);
            },
            Ok(value) => {
                let record = Record { key: copy_bytes(&keys[i]), value };
                let ghost before = out@;
                out.push(record);
                assert(record_found(k, map, keys@[i as int]@, out@[i as int]));
                assert forall|j: int| 0 <= j < i + 1 implies record_found(
                    k,
                    map,
                    keys@[j]@,
                    #[trigger] out@[j],
                ) by {
                    if j < i {
                        assert(out@[j] == before[j]);
                    }
                }
            },
        }
        i += 1;
    }
    assert(all_looked_up(k, map, keys@, Ok(out@)));
    Ok(out)
}

/// Reads all records of a map.
pub fn map_records<K: Kernel>(k: &K, map_name: &str) -> (r: Result<Vec<Record>, MapError>)
    ensures
        read(k, map_name@, listed(r)),
{
    reveal(read);
    let map = open_map_by_name(k, map_name);
    assert(opened(k, map_name@, seen(map)));
    match map {
        Err(e) => {
            assert(opened(k, map_name@, Err(e@)));
            Err(e)
        },
        Ok(id) => {
            let r = read_records(k, id);
            assert(read_from(k, id, listed(r)));
            r
        },
    }
}

// ---- Several writes ----

/// A change of one map entry.
#[derive(Debug)]
pub enum Write {
    Update { map: &'static str, key: Vec<u8>, value: Vec<u8> },
    Delete { map: &'static str, key: Vec<u8> },
}

/// What a change says.
#[verifier::ext_equal]
pub enum WriteView {
    Update { map: Seq<char>, key: Seq<u8>, value: Seq<u8> },
    Delete { map: Seq<char>, key: Seq<u8> },
}

impl View for Write {
    type V = WriteView;

    open spec fn view(&self) -> WriteView {
        match self {
            Write::Update { map, key, value } => WriteView::Update {
                map: map@,
                key: key@,
                value: value@,
            },
            Write::Delete { map, key } => WriteView::Delete { map: map@, key: key@ },
        }
    }
}

pub open spec fn write_views(v: Seq<Write>) -> Seq<WriteView> {
    Seq::new(v.len(), |i: int| v[i]@)
}

/// The map that a change is made in.
pub open spec fn write_map(w: WriteView) -> Seq<char> {
    match w {
        WriteView::Update { map, key, value } => map,
        WriteView::Delete { map, key } => map,
    }
}

/// A change was tried, and nothing else: the map was opened, and the change
/// made in it. Nothing is tried where the map cannot be opened.
#[verifier::opaque]
pub open spec fn written<K: Kernel>(
    k: &K,
    w: WriteView,
    done: Seq<Attempt>,
    r: Result<(), ErrorView>,
) -> bool {
    exists|id: Result<u32, ErrorView>|
        {
            &&& #[trigger] opened(k, write_map(w), id)
            &&& match id {
                Err(e) => r == Err::<(), ErrorView>(e) && done.len() == 0,
                Ok(map) => done == seq![Attempt { map, write: w, reply: r }],
            }
        }
}

/// A change was made in the map of its name.
pub open spec fn made<K: Kernel>(k: &K, w: WriteView, a: Attempt) -> bool {
    a.write == w && a.reply is Ok && opened(k, write_map(w), Ok(a.map))
}

/// A change that succeeded is the one that was tried, and one that failed left
/// at most one failed try.
pub proof fn lemma_written<K: Kernel>(
    k: &K,
    w: WriteView,
    done: Seq<Attempt>,
    r: Result<(), ErrorView>,
)
    requires
        written(k, w, done, r),
    ensures
        r is Ok ==> done.len() == 1 && made(k, w, done[0]),
        r is Err ==> done.len() <= 1 && forall|i: int|
            0 <= i < done.len() ==> (#[trigger] done[i]).reply is Err && done[i].write == w,
{
    reveal(written);
    let id = choose|id: Result<u32, ErrorView>|
        {
            &&& #[trigger] opened(k, write_map(w), id)
            &&& match id {
                Err(e) => r == Err::<(), ErrorView>(e) && done.len() == 0,
                Ok(map) => done == seq![Attempt { map, write: w, reply: r }],
            }
        };
    assert(opened(k, write_map(w), id));
}

/// Sets the value of a key.
pub fn map_update<K: Kernel, W: Writer>(
    k: &K,
    s: &mut Session<W>,
    map_name: &str,
    key: Vec<u8>,
    value: Vec<u8>,
) -> (r: Result<(), MapError>)
    ensures
        extends(old(s).trace(), final(s).trace()),
        final(s).writer() == old(s).writer(),
        written(
            k,
            WriteView::Update { map: map_name@, key: key@, value: value@ },
            since(old(s).trace(), final(s).trace()),
            seen(r),
        ),
{
    reveal(written);
    let ghost w = WriteView::Update { map: map_name@, key: key@, value: value@ };
    assert(write_map(w) == map_name@);
    match open(k, map_name) {
        Err(e) => {
            proof {
                lemma_same(s.trace());
            }
            assert(opened(k, write_map(w), Err(e@)));
            Err(e)
        },
        Ok(h) => {
            let ghost before = s.trace();
            let r = s.update(&h, key, value);
            proof {
                lemma_push(before, s.trace().last());
            }
            assert(opened(k, write_map(w), Ok(h.id())));
            assert(s.trace().last() == (Attempt { map: h.id(), write: w, reply: seen(r) }));
            r
        },
    }
}

/// Deletes a key.
pub fn map_delete<K: Kernel, W: Writer>(
    k: &K,
    s: &mut Session<W>,
    map_name: &str,
    key: Vec<u8>,
) -> (r: Result<(), MapError>)
    ensures
        extends(old(s).trace(), final(s).trace()),
        final(s).writer() == old(s).writer(),
        written(
            k,
            WriteView::Delete { map: map_name@, key: key@ },
            since(old(s).trace(), final(s).trace()),
            seen(r),
        ),
{
    reveal(written);
    let ghost w = WriteView::Delete { map: map_name@, key: key@ };
    assert(write_map(w) == map_name@);
    match open(k, map_name) {
        Err(e) => {
            proof {
                lemma_same(s.trace());
            }
            assert(opened(k, write_map(w), Err(e@)));
            Err(e)
        },
        Ok(h) => {
            let ghost before = s.trace();
            let r = s.delete(&h, key);
            proof {
                lemma_push(before, s.trace().last());
            }
            assert(opened(k, write_map(w), Ok(h.id())));
            assert(s.trace().last() == (Attempt { map: h.id(), write: w, reply: seen(r) }));
            r
        },
    }
}

/// All changes were made in order, each once, or those before the first that
/// failed; nothing else was tried.
pub open spec fn all_written<K: Kernel>(
    k: &K,
    writes: Seq<WriteView>,
    done: Seq<Attempt>,
    r: Result<(), (int, ErrorView)>,
) -> bool {
    match r {
        Ok(_) => done.len() == writes.len() && forall|i: int|
            0 <= i < writes.len() ==> made(k, #[trigger] writes[i], done[i]),
        Err((n, e)) => {
            &&& 0 <= n < writes.len()
            &&& n <= done.len()
            &&& forall|i: int| 0 <= i < n ==> made(k, #[trigger] writes[i], done[i])
            &&& written(k, writes[n], done.skip(n), Err(e))
        },
    }
}

/// The changes were made in order until one failed, and its error handed on.
pub open spec fn writes_run<K: Kernel>(
    k: &K,
    writes: Seq<WriteView>,
    done: Seq<Attempt>,
    r: Result<(), ErrorView>,
) -> bool {
    match r {
        Ok(_) => all_written(k, writes, done, Ok(())),
        Err(e) => exists|n: int| #[trigger] all_written(k, writes, done, Err((n, e))),
    }
}

/// The changes were made in order until one failed, and its error handed on
/// with the name of the map.
pub open spec fn amended_writes_run<K: Kernel>(
    k: &K,
    writes: Seq<WriteView>,
    done: Seq<Attempt>,
    r: Result<(), ErrorView>,
) -> bool {
    match r {
        Ok(_) => all_written(k, writes, done, Ok(())),
        Err(e) => exists|n: int, f: ErrorView|
            #[trigger] all_written(k, writes, done, Err((n, f))) && e == f.amended(
                write_map(writes[n]),
            ),
    }
}

/// A failed change and its error.
pub open spec fn stop_view(r: Result<(), (usize, MapError)>) -> Result<(), (int, ErrorView)> {
    match r {
        Ok(u) => Ok(u),
        Err((n, e)) => Err((n as int, e@)),
    }
}

fn write_until_failure<K: Kernel, W: Writer>(
    k: &K,
    s: &mut Session<W>,
    writes: &Vec<Write>,
) -> (r: Result<(), (usize, MapError)>)
    ensures
        extends(old(s).trace(), final(s).trace()),
        final(s).writer() == old(s).writer(),
        all_written(
            k,
            write_views(writes@),
            since(old(s).trace(), final(s).trace()),
            stop_view(r),
        ),
        r matches Err((n, _)) ==> n < writes@.len(),
{
    let ghost all = write_views(writes@);
    let ghost start = s.trace();
    let mut i: usize = 0;
    proof {
        lemma_same(start);
    }
    while i < writes.len()
        invariant
            i <= writes@.len(),
            all == write_views(writes@),
            start == old(s).trace(),
            s.writer() == old(s).writer(),
            extends(start, s.trace()),
            since(start, s.trace()).len() == i,
            forall|j: int|
                0 <= j < i ==> made(k, #[trigger] all[j], since(start, s.trace())[j]),
        decreases writes@.len() - i,
    {
        assert(all[i as int] == writes@[i as int]@);
        let ghost before = s.trace();
        let r = match &writes[i] {
            Write::Update { map, key, value } => map_update(
                k,
                s,
                map,
                copy_bytes(key),
                copy_bytes(value),
            ),
            Write::Delete { map, key } => map_delete(k, s, map, copy_bytes(key)),
        };
        proof {
            let part = since(before, s.trace());
            assert(written(k, all[i as int], part, seen(r)));
            lemma_written(k, all[i as int], part, seen(r));
            lemma_since(start, before, s.trace());
            let done = since(start, s.trace());
            assert(done.skip(i as int) =~= part);
            assert forall|j: int| 0 <= j < i implies made(k, #[trigger] all[j], done[j]) by {
                assert(done[j] == since(start, before)[j]);
            }
            if r is Ok {
                assert(done[i as int] == part[0]);
            }
        }
        match r {
            Ok(_) => {},
            Err(e) => {
                return Err((i, e));
            },
        }
        i += 1;
    }
    Ok(())
}

/// Makes changes until one fails.
pub fn run_writes<K: Kernel, W: Writer>(k: &K, s: &mut Session<W>, writes: &Vec<Write>) -> (r:
    Result<(), MapError>)
    ensures
        extends(old(s).trace(), final(s).trace()),
        final(s).writer() == old(s).writer(),
        writes_run(k, write_views(writes@), since(old(s).trace(), final(s).trace()), seen(r)),
{
    let ghost start = s.trace();
    match write_until_failure(k, s, writes) {
        Ok(_) => Ok(()),
        Err((n, e)) => {
            assert(all_written(
                k,
                write_views(writes@),
                since(start, s.trace()),
                Err((n as int, e@)),
            ));
            Err(e)
        },
    }
}

/// Makes changes until one fails; the error names the map.
pub fn run_amended_writes<K: Kernel, W: Writer>(
    k: &K,
    s: &mut Session<W>,
    writes: &Vec<Write>,
) -> (r: Result<(), MapError>)
    ensures
        extends(old(s).trace(), final(s).trace()),
        final(s).writer() == old(s).writer(),
        amended_writes_run(
            k,
            write_views(writes@),
            since(old(s).trace(), final(s).trace()),
            seen(r),
        ),
{
    let ghost start = s.trace();
    match write_until_failure(k, s, writes) {
        Ok(_) => Ok(()),
        Err((n, e)) => {
            assert(all_written(
                k,
                write_views(writes@),
                since(start, s.trace()),
                Err((n as int, e@)),
            ));
            let map = match &writes[n] {
                Write::Update { map, key, value } => map,
                Write::Delete { map, key } => map,
            };
            assert(map@ == write_map(write_views(writes@)[n as int]));
            Err(amend(e, map))
        },
    }
}

// ---- Maps by their names ----

/// The kernel tells the loaded maps in the order given, from the first on, and
/// nothing behind the last.
pub open spec fn told_in_order<K: Kernel>(k: &K, order: Seq<u32>) -> bool {
    &&& order.no_duplicates()
    &&& !order.contains(0)
    &&& forall|next: Option<u32>| #[trigger]
        call_ensures(K::next_map_id, (k, 0u32), next) ==> next == if order.len() > 0 {
            Some(order[0])
        } else {
            None
        }
    &&& forall|i: int, next: Option<u32>|
        0 <= i < order.len() && #[trigger] call_ensures(K::next_map_id, (k, order[i]), next)
            ==> next == if i + 1 < order.len() {
            Some(order[i + 1])
        } else {
            None
        }
}

proof fn lemma_walk_follows_the_order<K: Kernel>(k: &K, order: Seq<u32>, ids: Seq<u32>, n: int)
    requires
        told_in_order(k, order),
        walked(k, ids),
        0 <= n <= ids.len(),
    ensures
        n <= order.len(),
        forall|i: int| 0 <= i < n ==> #[trigger] ids[i] == order[i],
    decreases n,
{
    if n > 0 {
        lemma_walk_follows_the_order(k, order, ids, n - 1);
        let at = reached(ids.take(n - 1));
        assert(call_ensures(K::next_map_id, (k, at), Some(ids[n - 1])));
        if n > 1 {
            assert(ids.take(n - 1).last() == ids[n - 2]);
            assert(at == order[n - 2]);
        }
    }
}

/// A map is found by its name: the first loaded one that has it. Where none has
/// it, none is found.
pub proof fn maps_are_found_by_their_names<K: Kernel>(
    k: &K,
    order: Seq<u32>,
    names: spec_fn(u32) -> Seq<char>,
    name: Seq<char>,
    r: Result<u32, ErrorView>,
)
    requires
        opened(k, name, r),
        told_in_order(k, order),
        forall|id: u32, n: Option<String>| #[trigger]
            call_ensures(K::map_name, (k, id), n) ==> n is Some && n->0@ == names(id),
    ensures
        match r {
            Ok(id) => exists|i: int|
                {
                    &&& 0 <= i < order.len()
                    &&& #[trigger] order[i] == id
                    &&& names(id) == name
                    &&& forall|j: int| 0 <= j < i ==> names(#[trigger] order[j]) != name
                },
            Err(e) => {
                &&& e is NotFound
                &&& forall|j: int| 0 <= j < order.len() ==> names(#[trigger] order[j]) != name
            },
        },
{
    reveal(opened);
    let ids = choose|ids: Seq<u32>|
        {
            &&& #[trigger] walked(k, ids)
            &&& match r {
                Ok(id) => {
                    &&& ids.len() > 0 && id == ids.last()
                    &&& named(k, id, name, true)
                    &&& forall|i: int|
                        0 <= i < ids.len() - 1 ==> named(k, #[trigger] ids[i], name, false)
                },
                Err(e) => {
                    &&& e == no_map(name)
                    &&& forall|i: int|
                        0 <= i < ids.len() ==> named(k, #[trigger] ids[i], name, false)
                    &&& exists|next: Option<u32>|
                        {
                            &&& #[trigger] call_ensures(
                                K::next_map_id,
                                (k, reached(ids)),
                                next,
                            )
                            &&& next is None || ids.contains(next->0)
                        }
                },
            }
        };
    let n = ids.len() as int;
    lemma_walk_follows_the_order(k, order, ids, n);
    match r {
        Ok(id) => {
            assert(order[n - 1] == id);
            assert forall|j: int| 0 <= j < n - 1 implies names(#[trigger] order[j]) != name by {
                assert(named(k, ids[j], name, false));
                assert(ids[j] == order[j]);
            }
        },
        Err(_) => {
            let next = choose|next: Option<u32>|
                {
                    &&& #[trigger] call_ensures(K::next_map_id, (k, reached(ids)), next)
                    &&& next is None || ids.contains(next->0)
                };
            if n > 0 {
                assert(reached(ids) == order[n - 1]);
            }
            if n < order.len() {
                assert(next == Some(order[n]));
                let i = choose|i: int| 0 <= i < ids.len() && ids[i] == order[n];
                assert(order[i] == order[n]);
                assert(false);
            }
            assert forall|j: int| 0 <= j < order.len() implies names(#[trigger] order[j])
                != name by {
                assert(named(k, ids[j], name, false));
                assert(ids[j] == order[j]);
            }
        },
    }
}

} // verus!
