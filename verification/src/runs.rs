//! The runs of `bpftool` that the tool makes for backends, word by word.
use vstd::prelude::*;

use crate::bytes::le32;
use crate::ctl::backend::{
    backend_removed, backend_stored, devmap_amended, devmap_args, devmap_updated, entry_set,
    meta_set, slot_cleared, slot_set,
};
use crate::ctl::bpftool::{
    deleted, hex_words, map_found, on_map, run_on, updated, ToolErrorView, Tools,
};
use crate::ctl::edits::Edit;
use crate::records::{no_backend, BackendView};
use crate::text::{decimal, digit_value, hex_byte};

verus! {

/// The words are the bytes, two digits of base 16 each.
pub open spec fn digits_of(words: Seq<Seq<char>>, bytes: Seq<u8>) -> bool {
    &&& words.len() == bytes.len()
    &&& forall|i: int|
        0 <= i < bytes.len() ==> (#[trigger] words[i]).len() == 2 && 16 * digit_value(words[i][0])
            + digit_value(words[i][1]) == bytes[i]
}

proof fn lemma_digits_of(bytes: Seq<u8>)
    ensures
        digits_of(hex_words(bytes), bytes),
{
    assert forall|i: int| 0 <= i < bytes.len() implies (#[trigger] hex_words(bytes)[i]).len() == 2
        && 16 * digit_value(hex_words(bytes)[i][0]) + digit_value(hex_words(bytes)[i][1])
        == bytes[i] by {
        assert(hex_words(bytes)[i] == hex_byte(bytes[i]));
    }
}

/// Four bytes hold a number, the low one first.
pub open spec fn holds_number(bytes: Seq<u8>, n: u32) -> bool {
    bytes.len() == 4 && bytes[0] + 256 * bytes[1] + 65536 * bytes[2] + 16777216 * bytes[3] == n
}

/// The run set the value of a key of a map, and worked.
pub open spec fn sets(run: Edit, map: u32, key: Seq<u8>, value: Seq<u8>) -> bool {
    exists|k: Seq<Seq<char>>, v: Seq<Seq<char>>|
        {
            &&& #[trigger] digits_of(k, key)
            &&& #[trigger] digits_of(v, value)
            &&& run.args == seq!["map"@, "update"@, "id"@, decimal(map as int), "key"@, "hex"@] + k
                + seq!["value"@, "hex"@] + v
            &&& run.reply matches Ok(o) && o.success
        }
}

/// The run deleted a key of a map, and worked.
pub open spec fn deletes(run: Edit, map: u32, key: Seq<u8>) -> bool {
    exists|k: Seq<Seq<char>>|
        {
            &&& #[trigger] digits_of(k, key)
            &&& run.args == seq!["map"@, "delete"@, "id"@, decimal(map as int), "key"@, "hex"@] + k
            &&& run.reply matches Ok(o) && o.success
        }
}

/// Four bytes of zeros.
pub open spec fn four_zeros() -> Seq<u8> {
    seq![0u8, 0, 0, 0]
}

/// The run set the interface of a backend in a map, and worked.
pub open spec fn sets_interface(run: Edit, map: u32, id: Seq<u8>, ifindex: Seq<u8>) -> bool {
    exists|k: Seq<Seq<char>>, v: Seq<Seq<char>>, z: Seq<Seq<char>>|
        {
            &&& #[trigger] digits_of(k, id)
            &&& #[trigger] digits_of(v, ifindex)
            &&& #[trigger] digits_of(z, four_zeros())
            &&& run.args == seq!["map"@, "update"@, "id"@, decimal(map as int), "key"@, "hex"@] + k
                + seq!["value"@, "hex"@] + v + z + seq!["id"@, "0"@]
            &&& run.reply matches Ok(o) && o.success
        }
}

/// The one run of an update names the map that was found, and the key and the
/// value byte by byte.
pub proof fn updates_name_key_and_value<T: Tools>(
    t: &T,
    iface: Seq<char>,
    name: Seq<char>,
    key: Seq<u8>,
    value: Seq<u8>,
    done: Seq<Edit>,
)
    requires
        updated(t, iface, name, key, value, done, Ok(())),
    ensures
        done.len() == 1,
        exists|map: u32| #[trigger] map_found(t, iface, name, Ok(map)) && sets(
            done[0],
            map,
            key,
            value,
        ),
{
    let id = choose|id: Result<u32, ToolErrorView>|
        {
            &&& #[trigger] map_found(t, iface, name, id)
            &&& match id {
                Err(e) => false,
                Ok(n) => crate::ctl::bpftool::map_effect(
                    crate::ctl::bpftool::update_args(n, key, value),
                    done,
                    Ok(()),
                ),
            }
        };
    let n = id->Ok_0;
    assert(map_found(t, iface, name, Ok(n)));
    lemma_digits_of(key);
    lemma_digits_of(value);
    let k = hex_words(key);
    let v = hex_words(value);
    assert(digits_of(k, key) && digits_of(v, value));
    assert(done[0].args =~= seq!["map"@, "update"@, "id"@, decimal(n as int), "key"@, "hex"@] + k
        + seq!["value"@, "hex"@] + v);
    assert(sets(done[0], n, key, value));
}

/// The one run of a deletion names the map that was found and the key byte by
/// byte.
pub proof fn deletions_name_the_key<T: Tools>(
    t: &T,
    iface: Seq<char>,
    name: Seq<char>,
    key: Seq<u8>,
    done: Seq<Edit>,
)
    requires
        deleted(t, iface, name, key, done, Ok(())),
    ensures
        done.len() == 1,
        exists|map: u32| #[trigger] map_found(t, iface, name, Ok(map)) && deletes(
            done[0],
            map,
            key,
        ),
{
    let id = choose|id: Result<u32, ToolErrorView>|
        {
            &&& #[trigger] map_found(t, iface, name, id)
            &&& match id {
                Err(e) => false,
                Ok(n) => crate::ctl::bpftool::map_effect(
                    crate::ctl::bpftool::delete_args(n, key),
                    done,
                    Ok(()),
                ),
            }
        };
    let n = id->Ok_0;
    assert(map_found(t, iface, name, Ok(n)));
    lemma_digits_of(key);
    let k = hex_words(key);
    assert(done[0].args =~= seq!["map"@, "delete"@, "id"@, decimal(n as int), "key"@, "hex"@] + k);
    assert(digits_of(k, key));
    assert(deletes(done[0], n, key));
}

proof fn lemma_interface_run<T: Tools>(
    t: &T,
    iface: Seq<char>,
    id: u32,
    ifindex: u32,
    done: Seq<Edit>,
)
    requires
        devmap_amended(t, iface, id, ifindex, done, Ok(())),
    ensures
        done.len() == 1,
        exists|map: u32| #[trigger] map_found(t, iface, "lb_devmap"@, Ok(map)) && sets_interface(
            done[0],
            map,
            le32(id),
            le32(ifindex),
        ),
{
    let w = choose|w: Result<(), ToolErrorView>| #[trigger]
        devmap_updated(t, iface, id, ifindex, done, w) && w is Ok;
    let v = choose|v: Result<(), ToolErrorView>| #[trigger]
        run_on(t, iface, "lb_devmap"@, devmap_args(id, ifindex), done, v) && v is Ok;
    let found = choose|found: Result<u32, ToolErrorView>|
        {
            &&& #[trigger] map_found(t, iface, "lb_devmap"@, found)
            &&& match found {
                Err(e) => false,
                Ok(n) => crate::ctl::bpftool::map_effect(
                    on_map(n, devmap_args(id, ifindex)),
                    done,
                    v,
                ),
            }
        };
    let n = found->Ok_0;
    assert(map_found(t, iface, "lb_devmap"@, Ok(n)));
    let k = hex_words(le32(id));
    let f = hex_words(le32(ifindex));
    let z = hex_words(le32(0));
    lemma_digits_of(le32(id));
    lemma_digits_of(le32(ifindex));
    lemma_digits_of(le32(0));
    assert(le32(0) =~= four_zeros());
    let args = devmap_args(id, ifindex);
    assert(args[0] == "update"@);
    assert(args.skip(1) =~= seq!["key"@, "hex"@] + k + seq!["value"@, "hex"@] + f + z + seq![
        "id"@,
        "0"@,
    ]);
    assert(done[0].args =~= seq!["map"@, "update"@, "id"@, decimal(n as int), "key"@, "hex"@] + k
        + seq!["value"@, "hex"@] + f + z + seq!["id"@, "0"@]);
    assert(digits_of(k, le32(id)) && digits_of(f, le32(ifindex)));
    assert(digits_of(z, four_zeros()));
    assert(sets_interface(done[0], n, le32(id), le32(ifindex)));
}

/// The run set the value of a key in the map of a name.
pub open spec fn set_in<T: Tools>(
    t: &T,
    iface: Seq<char>,
    name: Seq<char>,
    run: Edit,
    key: Seq<u8>,
    value: Seq<u8>,
) -> bool {
    exists|map: u32| #[trigger] map_found(t, iface, name, Ok(map)) && sets(run, map, key, value)
}

/// The run set the interface of a backend in the map of the interfaces.
pub open spec fn interface_set<T: Tools>(
    t: &T,
    iface: Seq<char>,
    run: Edit,
    id: Seq<u8>,
    ifindex: Seq<u8>,
) -> bool {
    exists|map: u32| #[trigger] map_found(t, iface, "lb_devmap"@, Ok(map)) && sets_interface(
        run,
        map,
        id,
        ifindex,
    )
}

proof fn lemma_number_bytes(bytes: Seq<u8>, n: u32)
    requires
        holds_number(bytes, n),
    ensures
        le32(n) == bytes,
{
    let low = bytes[0] + 256 * bytes[1];
    let high = bytes[2] + 256 * bytes[3];
    assert(n == low + 65536 * high);
    assert(n % 256 == bytes[0]);
    assert(n / 256 % 256 == bytes[1]);
    assert(n / 65536 == high);
    assert(n / 65536 % 256 == bytes[2]);
    assert(n / 16777216 == bytes[3]);
    assert(le32(n) =~= bytes);
}

proof fn lemma_entry_run<T: Tools>(
    t: &T,
    iface: Seq<char>,
    map: Seq<char>,
    key: Seq<u8>,
    value: Seq<u8>,
    done: Seq<Edit>,
)
    requires
        entry_set(t, iface, map, key, value, done, Ok(())),
    ensures
        done.len() == 1,
        set_in(t, iface, map, done[0], key, value),
{
    let w = choose|w: Result<(), ToolErrorView>| #[trigger]
        updated(t, iface, map, key, value, done, w) && w is Ok;
    assert(updated(t, iface, map, key, value, done, Ok(())));
    updates_name_key_and_value(t, iface, map, key, value, done);
}

/// Storing a backend takes three runs: one sets its record under its number, one
/// its interface under its number, and one the number of backends to one more
/// than that, each in its own map.
pub proof fn a_backend_is_stored_in_three_runs<T: Tools>(
    t: &T,
    iface: Seq<char>,
    backend: BackendView,
    id: u32,
    done: Seq<Edit>,
    r: u32,
    key: Seq<u8>,
    link: Seq<u8>,
    count: Seq<u8>,
)
    requires
        backend_stored(t, iface, backend, id, done, Ok(r)),
        id < 0xffff_ffff,
        holds_number(key, id),
        holds_number(link, backend.ifindex),
        holds_number(count, (id + 1) as u32),
    ensures
        r == id,
        done.len() == 3,
        set_in(t, iface, "lb_backends"@, done[0], key, backend.bytes()),
        interface_set(t, iface, done[1], key, link),
        set_in(t, iface, "lb_meta"@, done[2], four_zeros(), count + four_zeros()),
{
    lemma_number_bytes(key, id);
    lemma_number_bytes(link, backend.ifindex);
    lemma_number_bytes(count, (id + 1) as u32);
    assert(le32(0) =~= four_zeros());
    let a = done.take(1);
    let b = done.subrange(1, 2);
    let c = done.skip(2);
    assert(slot_set(t, iface, backend, id, a, Ok(())));
    lemma_entry_run(t, iface, "lb_backends"@, key, backend.bytes(), a);
    assert(devmap_amended(t, iface, id, backend.ifindex, b, Ok(())));
    lemma_interface_run(t, iface, id, backend.ifindex, b);
    assert(meta_set(t, iface, id, c, Ok(())));
    lemma_entry_run(t, iface, "lb_meta"@, four_zeros(), count + four_zeros(), c);
    assert(a[0] == done[0] && b[0] == done[1] && c[0] == done[2]);
}

/// Taking a backend away takes two runs: one makes its record all zeros, so that
/// it has no interface, and one deletes its interface.
pub proof fn a_backend_is_taken_away_in_two_runs<T: Tools>(
    t: &T,
    iface: Seq<char>,
    id: u32,
    done: Seq<Edit>,
    key: Seq<u8>,
    blank: Seq<u8>,
)
    requires
        backend_removed(t, iface, id, done, Ok(())),
        holds_number(key, id),
        blank.len() == 48,
        forall|i: int| 0 <= i < 48 ==> blank[i] == 0,
    ensures
        done.len() == 2,
        set_in(t, iface, "lb_backends"@, done[0], key, blank),
        exists|map: u32| #[trigger] map_found(t, iface, "lb_devmap"@, Ok(map)) && deletes(
            done[1],
            map,
            key,
        ),
{
    lemma_number_bytes(key, id);
    let value = no_backend().bytes();
    assert(value =~= blank);
    let a = done.take(1);
    let b = done.skip(1);
    assert(slot_cleared(t, iface, id, a, Ok(())));
    updates_name_key_and_value(t, iface, "lb_backends"@, key, blank, a);
    deletions_name_the_key(t, iface, "lb_devmap"@, key, b);
    assert(a[0] == done[0] && b[0] == done[1]);
}

} // verus!
