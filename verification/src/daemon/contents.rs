//! What the kernel's maps hold after a stretch of work on them.
use vstd::prelude::*;

use crate::bytes::{le32, le64};
use crate::daemon::backend::{
    add_writes, backend_added, backend_added_on, backend_deleted, backend_stored, backends_flushed,
    backends_listed, id_chosen, interface_resolved, list_flushed as backends_list_flushed,
    remove_all_writes, remove_writes, LB_BACKENDS_MAP, LB_DEV_MAP, LB_META_MAP,
};
use crate::daemon::config::Config;
use crate::daemon::host::Host;
use crate::daemon::kernel::{
    all_written, amended_writes_run, lemma_written, made, opened, read, write_map, writes_run,
    written, ErrorView, Kernel, MapError, Record, WriteView, EVENT_MASK_MAP, L4_ACL_MAP, VLAN_ACL_MAP,
};
use crate::daemon::maps::{
    acl_listed, cleared, deletions, entry_deleted, entry_key, keys_deleted, mask_write, parsed_rule,
    rule_added, rule_deleted, rule_write, vlan_deleted, vlan_key, vlan_listed, AclEntryView,
    VlanEntryView,
};
use crate::daemon::reload::{
    applied, applied_after_rules, lemma_step_done, logging_mask, plan, plan_applied, reloaded,
    step_failed, step_made, step_write, steps_run, StepView,
};
use crate::daemon::service::{
    flush_writes, list_flushed, listed_service_keeps_its_key, service_add_write,
    service_delete_write, service_in, services_flushed, services_in, services_listed, spec_key,
    ServiceSpec, ServiceView, LB_SERVICES_MAP,
};
use crate::daemon::session::Attempt;
use crate::records::{no_backend, service_value, BackendSpec, BackendView};

verus! {

/// The entries of a map.
pub type Entries = Map<Seq<u8>, Seq<u8>>;

/// The entries of the map of a name after a change.
pub open spec fn changed(c: Entries, map: Seq<char>, w: WriteView) -> Entries {
    match w {
        WriteView::Update { map: m, key, value } => if m == map {
            c.insert(key, value)
        } else {
            c
        },
        WriteView::Delete { map: m, key } => if m == map {
            c.remove(key)
        } else {
            c
        },
    }
}

/// The entries of the map of a name after changes.
pub open spec fn all_changed(c: Entries, map: Seq<char>, writes: Seq<WriteView>) -> Entries
    decreases writes.len(),
{
    if writes.len() == 0 {
        c
    } else {
        changed(all_changed(c, map, writes.drop_last()), map, writes.last())
    }
}

/// The entries of the map of a name after what was tried. What the kernel
/// refused changes nothing.
pub open spec fn entries_after(c: Entries, map: Seq<char>, done: Seq<Attempt>) -> Entries
    decreases done.len(),
{
    if done.len() == 0 {
        c
    } else {
        let before = entries_after(c, map, done.drop_last());
        if done.last().reply is Ok {
            changed(before, map, done.last().write)
        } else {
            before
        }
    }
}

/// No map was changed.
pub open spec fn unchanged(done: Seq<Attempt>) -> bool {
    forall|c: Entries, map: Seq<char>| #[trigger] entries_after(c, map, done) == c
}

/// The entries of the maps of a name are kept.
pub open spec fn kept(map: Seq<char>, done: Seq<Attempt>) -> bool {
    forall|c: Entries| #[trigger] entries_after(c, map, done) == c
}

// ---- How entries follow from changes ----

/// What two stretches leave is what the second leaves of what the first left.
pub proof fn stretches_compose(c: Entries, map: Seq<char>, a: Seq<Attempt>, b: Seq<Attempt>)
    ensures
        entries_after(c, map, a + b) == entries_after(entries_after(c, map, a), map, b),
    decreases b.len(),
{
    if b.len() == 0 {
        assert(a + b =~= a);
    } else {
        assert((a + b).drop_last() =~= a + b.drop_last());
        assert((a + b).last() == b.last());
        stretches_compose(c, map, a, b.drop_last());
    }
}

/// Failed tries, and changes of other maps, leave a map as it was.
pub proof fn failures_change_nothing(c: Entries, map: Seq<char>, done: Seq<Attempt>)
    requires
        forall|i: int|
            0 <= i < done.len() ==> (#[trigger] done[i]).reply is Err || write_map(done[i].write)
                != map,
    ensures
        entries_after(c, map, done) == c,
    decreases done.len(),
{
    if done.len() > 0 {
        assert forall|i: int| 0 <= i < done.drop_last().len() implies (
        #[trigger] done.drop_last()[i]).reply is Err || write_map(done.drop_last()[i].write)
            != map by {
            assert(done.drop_last()[i] == done[i]);
        }
        failures_change_nothing(c, map, done.drop_last());
        assert(done.last() == done[done.len() - 1]);
    }
}

/// Changes that were all made leave what they say.
proof fn lemma_made<K: Kernel>(
    k: &K,
    c: Entries,
    map: Seq<char>,
    writes: Seq<WriteView>,
    done: Seq<Attempt>,
)
    requires
        done.len() == writes.len(),
        forall|i: int| 0 <= i < writes.len() ==> made(k, #[trigger] writes[i], done[i]),
    ensures
        entries_after(c, map, done) == all_changed(c, map, writes),
    decreases writes.len(),
{
    if writes.len() > 0 {
        let w = writes.drop_last();
        let d = done.drop_last();
        assert forall|i: int| 0 <= i < w.len() implies made(k, #[trigger] w[i], d[i]) by {
            assert(w[i] == writes[i] && d[i] == done[i]);
        }
        lemma_made(k, c, map, w, d);
        assert(made(k, writes[writes.len() - 1], done[done.len() - 1]));
    }
}

/// A change leaves what it says where it succeeded, and nothing where it
/// failed.
pub proof fn written_entries<K: Kernel>(
    k: &K,
    w: WriteView,
    done: Seq<Attempt>,
    r: Result<(), ErrorView>,
    c: Entries,
    map: Seq<char>,
)
    requires
        written(k, w, done, r),
    ensures
        entries_after(c, map, done) == if r is Ok {
            changed(c, map, w)
        } else {
            c
        },
{
    lemma_written(k, w, done, r);
    if r is Ok {
        assert(done.drop_last() =~= Seq::empty());
        assert(entries_after(c, map, done.drop_last()) == c);
    } else {
        failures_change_nothing(c, map, done);
    }
}

/// Changes that are made in order until one fails leave what those before it
/// say.
pub proof fn all_written_entries<K: Kernel>(
    k: &K,
    writes: Seq<WriteView>,
    done: Seq<Attempt>,
    r: Result<(), (int, ErrorView)>,
    c: Entries,
    map: Seq<char>,
)
    requires
        all_written(k, writes, done, r),
    ensures
        entries_after(c, map, done) == match r {
            Ok(_) => all_changed(c, map, writes),
            Err((n, _)) => all_changed(c, map, writes.take(n)),
        },
{
    match r {
        Ok(_) => {
            lemma_made(k, c, map, writes, done);
        },
        Err((n, e)) => {
            let a = done.take(n);
            let b = done.skip(n);
            assert(a + b =~= done);
            assert forall|i: int| 0 <= i < n implies made(
                k,
                #[trigger] writes.take(n)[i],
                a[i],
            ) by {
                assert(writes.take(n)[i] == writes[i]);
            }
            lemma_made(k, c, map, writes.take(n), a);
            stretches_compose(c, map, a, b);
            written_entries(k, writes[n], b, Err(e), entries_after(c, map, a), map);
        },
    }
}

/// Changes of other maps keep a map.
pub proof fn other_maps_stay(c: Entries, map: Seq<char>, writes: Seq<WriteView>)
    requires
        forall|i: int| 0 <= i < writes.len() ==> write_map(#[trigger] writes[i]) != map,
    ensures
        all_changed(c, map, writes) == c,
    decreases writes.len(),
{
    if writes.len() > 0 {
        assert forall|i: int| 0 <= i < writes.drop_last().len() implies write_map(
            #[trigger] writes.drop_last()[i],
        ) != map by {
            assert(writes.drop_last()[i] == writes[i]);
        }
        other_maps_stay(c, map, writes.drop_last());
        assert(write_map(writes[writes.len() - 1]) != map);
    }
}

// ---- Rules ----

/// Adding a rule sets the entry of its key, whatever it held, and keeps every
/// other entry and map. A rule that is refused, or that the kernel does not
/// take, changes nothing.
pub proof fn adding_a_rule_sets_its_entry<K: Kernel>(
    k: &K,
    action: Seq<char>,
    src: Seq<char>,
    dst: Seq<char>,
    proto: Option<Seq<char>>,
    rate: Option<u32>,
    done: Seq<Attempt>,
    r: Result<(), ErrorView>,
    c: Entries,
)
    requires
        rule_added(k, action, src, dst, proto, rate, done, r),
    ensures
        match parsed_rule(action, src, dst, proto, rate) {
            Err(_) => r is Err && done.len() == 0,
            Ok(rule) => r is Ok ==> entries_after(c, L4_ACL_MAP@, done) == c.insert(
                rule.key(),
                rule.value(),
            ),
        },
        r is Err ==> unchanged(done),
        forall|map: Seq<char>| map != L4_ACL_MAP@ ==> #[trigger] kept(map, done),
{
    match parsed_rule(action, src, dst, proto, rate) {
        Err(_) => {},
        Ok(rule) => {
            let w = choose|w: Result<(), ErrorView>|
                {
                    &&& #[trigger] written(k, rule_write(rule), done, w)
                    &&& r == match w {
                        Ok(u) => Ok::<(), ErrorView>(u),
                        Err(e) => Err(ErrorView::Json("["@ + action + "] "@ + e.message())),
                    }
                };
            assert forall|d: Entries, map: Seq<char>| #[trigger]
                entries_after(d, map, done) == if r is Ok {
                    changed(d, map, rule_write(rule))
                } else {
                    d
                } by {
                written_entries(k, rule_write(rule), done, w, d, map);
            }
        },
    }
}

/// The one key that a deletion of a rule takes away.
pub open spec fn key_lost(c: Entries, map: Seq<char>, key: Seq<u8>, done: Seq<Attempt>) -> bool {
    entries_after(c, map, done) == c.remove(key)
}

proof fn lemma_delete_entries<K: Kernel>(
    k: &K,
    name: Seq<char>,
    key: Seq<u8>,
    done: Seq<Attempt>,
    r: Result<(), ErrorView>,
    c: Entries,
)
    requires
        written(k, WriteView::Delete { map: name, key }, done, r),
    ensures
        r is Ok ==> key_lost(c, name, key, done),
        r is Err ==> unchanged(done),
        forall|map: Seq<char>| map != name ==> #[trigger] kept(map, done),
{
    let w = WriteView::Delete { map: name, key };
    assert forall|d: Entries, map: Seq<char>| #[trigger]
        entries_after(d, map, done) == if r is Ok {
            changed(d, map, w)
        } else {
            d
        } by {
        written_entries(k, w, done, r, d, map);
    }
}

/// Deleting a rule by its index takes exactly the key of the listed entry away;
/// where it fails nothing is changed, and no other map is.
pub proof fn deleting_a_rule_takes_one_key<K: Kernel>(
    k: &K,
    id: int,
    done: Seq<Attempt>,
    r: Result<(), ErrorView>,
    c: Entries,
)
    requires
        0 <= id,
        rule_deleted(k, id, done, r),
    ensures
        r is Ok ==> exists|v: Seq<AclEntryView>|
            {
                &&& #[trigger] acl_listed(k, Ok(v))
                &&& id < v.len()
                &&& key_lost(c, L4_ACL_MAP@, entry_key(v[id]), done)
            },
        r is Err ==> unchanged(done),
        forall|map: Seq<char>| map != L4_ACL_MAP@ ==> #[trigger] kept(map, done),
{
    let list = choose|list: Result<Seq<AclEntryView>, ErrorView>|
        {
            &&& #[trigger] acl_listed(k, list)
            &&& match list {
                Err(e) => r == Err::<(), ErrorView>(e) && done.len() == 0,
                Ok(v) => if id >= v.len() {
                    r is Err && done.len() == 0
                } else {
                    entry_deleted(k, id, entry_key(v[id]), done, r)
                },
            }
        };
    if let Ok(v) = list {
        if id < v.len() && done.len() > 0 {
            lemma_delete_entries(k, L4_ACL_MAP@, entry_key(v[id]), done, r, c);
        } else if id < v.len() && r is Ok {
            lemma_delete_entries(k, L4_ACL_MAP@, entry_key(v[id]), done, r, c);
        }
    }
}

/// Deleting a VLAN rule by its index takes exactly the key of the listed entry
/// away; where it fails nothing is changed, and no other map is.
pub proof fn deleting_a_vlan_rule_takes_one_key<K: Kernel>(
    k: &K,
    id: int,
    done: Seq<Attempt>,
    r: Result<(), ErrorView>,
    c: Entries,
)
    requires
        0 <= id,
        vlan_deleted(k, id, done, r),
    ensures
        r is Ok ==> exists|v: Seq<VlanEntryView>|
            {
                &&& #[trigger] vlan_listed(k, Ok(v))
                &&& id < v.len()
                &&& key_lost(
                    c,
                    VLAN_ACL_MAP@,
                    vlan_key(v[id].outer_vlan, v[id].inner_vlan),
                    done,
                )
            },
        r is Err ==> unchanged(done),
        forall|map: Seq<char>| map != VLAN_ACL_MAP@ ==> #[trigger] kept(map, done),
{
    let list = choose|list: Result<Seq<VlanEntryView>, ErrorView>|
        {
            &&& #[trigger] vlan_listed(k, list)
            &&& match list {
                Err(e) => r == Err::<(), ErrorView>(e) && done.len() == 0,
                Ok(v) => if id >= v.len() {
                    r is Err && done.len() == 0
                } else {
                    written(
                        k,
                        WriteView::Delete {
                            map: VLAN_ACL_MAP@,
                            key: vlan_key(v[id].outer_vlan, v[id].inner_vlan),
                        },
                        done,
                        r,
                    )
                },
            }
        };
    if let Ok(v) = list {
        if id < v.len() {
            let key = vlan_key(v[id].outer_vlan, v[id].inner_vlan);
            lemma_delete_entries(k, VLAN_ACL_MAP@, key, done, r, c);
        }
    }
}

// ---- Backends ----

pub proof fn lemma_map_names()
    ensures
        LB_META_MAP@ != LB_BACKENDS_MAP@,
        LB_META_MAP@ != LB_DEV_MAP@,
        LB_DEV_MAP@ != LB_BACKENDS_MAP@,
        L4_ACL_MAP@ != VLAN_ACL_MAP@,
        L4_ACL_MAP@ != EVENT_MASK_MAP@,
        VLAN_ACL_MAP@ != EVENT_MASK_MAP@,
{
    reveal_strlit("lb_meta");
    reveal_strlit("lb_backends");
    reveal_strlit("lb_devmap");
    reveal_strlit("l4_acl");
    reveal_strlit("vlan_acl");
    reveal_strlit("event_mask");
    assert(LB_META_MAP@.len() == 7 && LB_BACKENDS_MAP@.len() == 11 && LB_DEV_MAP@.len() == 9);
    assert(L4_ACL_MAP@.len() == 6 && VLAN_ACL_MAP@.len() == 8 && EVENT_MASK_MAP@.len() == 10);
}

/// Some of the first changes were made: all of them where it worked.
pub open spec fn made_up_to(
    writes: Seq<WriteView>,
    n: int,
    whole: bool,
    done: Seq<Attempt>,
) -> bool {
    &&& 0 <= n <= writes.len()
    &&& whole ==> n == writes.len()
    &&& forall|c: Entries, map: Seq<char>| #[trigger]
        entries_after(c, map, done) == all_changed(c, map, writes.take(n))
}

proof fn lemma_made_up_to<K: Kernel>(
    k: &K,
    writes: Seq<WriteView>,
    done: Seq<Attempt>,
    r: Result<(), (int, ErrorView)>,
) -> (n: int)
    requires
        all_written(k, writes, done, r),
    ensures
        made_up_to(writes, n, r is Ok, done),
{
    let n = match r {
        Ok(_) => writes.len() as int,
        Err((n, _)) => n,
    };
    assert(writes.take(writes.len() as int) =~= writes);
    assert forall|c: Entries, map: Seq<char>| #[trigger]
        entries_after(c, map, done) == all_changed(c, map, writes.take(n)) by {
        all_written_entries(k, writes, done, r, c, map);
    }
    n
}

proof fn lemma_two_changes(c: Entries, map: Seq<char>, w: Seq<WriteView>)
    requires
        w.len() == 2,
    ensures
        all_changed(c, map, w) == changed(changed(c, map, w[0]), map, w[1]),
{
    reveal_with_fuel(all_changed, 3);
    assert(w.drop_last().drop_last() =~= Seq::empty());
}

proof fn lemma_backend_added<H: Host>(
    h: &H,
    spec: BackendSpec,
    done: Seq<Attempt>,
    r: Result<u32, ErrorView>,
) -> (out: (u32, u32, int))
    requires
        backend_added(h, spec, done, r),
    ensures
        done.len() == 0 && r is Err || {
            &&& interface_resolved(h, spec.dev@, Ok(out.0))
            &&& made_up_to(add_writes(spec.backend(out.0), out.1), out.2, r is Ok, done)
            &&& r is Ok ==> r == Ok::<u32, ErrorView>(out.1)
        },
{
    let index = choose|index: Result<u32, Seq<char>>|
        {
            &&& #[trigger] interface_resolved(h, spec.dev@, index)
            &&& match index {
                Err(m) => r == Err::<u32, ErrorView>(ErrorView::Json(m)) && done.len() == 0,
                Ok(n) => backend_added_on(h, spec, n, done, r),
            }
        };
    if let Ok(ifindex) = index {
        let id = choose|id: Result<u32, ErrorView>|
            {
                &&& #[trigger] id_chosen(h, id)
                &&& match id {
                    Err(e) => r == Err::<u32, ErrorView>(e) && done.len() == 0,
                    Ok(n) => if n == u32::MAX {
                        r is Err && done.len() == 0
                    } else {
                        backend_stored(
                            h,
                            spec.backend(ifindex),
                            n,
                            done,
                            r,
                        )
                    },
                }
            };
        if let Ok(id) = id {
            if id < u32::MAX {
                let writes = add_writes(spec.backend(ifindex), id);
                let w = choose|w: Result<(), ErrorView>|
                    {
                        &&& #[trigger] amended_writes_run(h, writes, done, w)
                        &&& r == match w {
                            Ok(_) => Ok::<u32, ErrorView>(id),
                            Err(e) => Err(e),
                        }
                    };
                let stop = match w {
                    Ok(_) => Ok::<(), (int, ErrorView)>(()),
                    Err(e) => {
                        let (n, f) = choose|n: int, f: ErrorView|
                            #[trigger] all_written(h, writes, done, Err((n, f))) && e
                                == f.amended(write_map(writes[n]));
                        Err((n, f))
                    },
                };
                let n = lemma_made_up_to(h, writes, done, stop);
                (ifindex, id, n)
            } else {
                (0, 0, 0)
            }
        } else {
            (0, 0, 0)
        }
    } else {
        (0, 0, 0)
    }
}

proof fn lemma_add_writes(backend: BackendView, id: u32, n: int, c: Entries)
    requires
        0 <= n <= 3,
    ensures
        ({
            let w = add_writes(backend, id).take(n);
            &&& all_changed(c, LB_BACKENDS_MAP@, w) == if n >= 1 {
                c.insert(le32(id), backend.bytes())
            } else {
                c
            }
            &&& all_changed(c, LB_DEV_MAP@, w) == if n >= 2 {
                c.insert(le32(id), le32(backend.ifindex) + le32(0))
            } else {
                c
            }
            &&& all_changed(c, LB_META_MAP@, w) == if n >= 3 {
                c.insert(le32(0), le32((id + 1) as u32) + le32(0))
            } else {
                c
            }
        }),
{
    lemma_map_names();
    let w = add_writes(backend, id);
    assert(w.take(0) =~= Seq::empty());
    assert(w.take(1).drop_last() =~= w.take(0));
    assert(w.take(2).drop_last() =~= w.take(1));
    assert(w.take(3).drop_last() =~= w.take(2));
    reveal_with_fuel(all_changed, 4);
}

/// The entries of all keys but one are the same.
pub open spec fn same_but(a: Entries, b: Entries, key: Seq<u8>) -> bool {
    a.remove(key) == b.remove(key)
}

/// Adding a backend sets the entry of its number in `lb_backends` and
/// `lb_devmap` and the number of backends, in this order until one fails: every
/// other slot stays, and so does every other map. For an interface that is not
/// found, or without a free number, nothing is changed.
pub proof fn adding_a_backend_sets_its_slot<H: Host>(
    h: &H,
    spec: BackendSpec,
    done: Seq<Attempt>,
    r: Result<u32, ErrorView>,
    c: Entries,
)
    requires
        backend_added(h, spec, done, r),
    ensures
        r matches Ok(id) ==> exists|ifindex: u32|
            {
                &&& #[trigger] interface_resolved(h, spec.dev@, Ok(ifindex))
                &&& entries_after(c, LB_BACKENDS_MAP@, done) == c.insert(
                    le32(id),
                    spec.backend(ifindex).bytes(),
                )
                &&& entries_after(c, LB_DEV_MAP@, done) == c.insert(
                    le32(id),
                    le32(ifindex) + le32(0),
                )
                &&& entries_after(c, LB_META_MAP@, done) == c.insert(
                    le32(0),
                    le32((id + 1) as u32) + le32(0),
                )
            },
        exists|key: Seq<u8>|
            {
                &&& #[trigger] same_but(entries_after(c, LB_BACKENDS_MAP@, done), c, key)
                &&& same_but(entries_after(c, LB_DEV_MAP@, done), c, key)
            },
        forall|map: Seq<char>|
            map != LB_BACKENDS_MAP@ && map != LB_DEV_MAP@ && map != LB_META_MAP@
                ==> #[trigger] kept(map, done),
        (forall|n: u32| !#[trigger] interface_resolved(h, spec.dev@, Ok(n))) ==> r is Err
            && done.len() == 0,
{
    let (ifindex, id, n) = lemma_backend_added(h, spec, done, r);
    let key = le32(id);
    if done.len() == 0 && r is Err {
        assert(same_but(entries_after(c, LB_BACKENDS_MAP@, done), c, key));
    } else {
        let writes = add_writes(spec.backend(ifindex), id);
        lemma_add_writes(spec.backend(ifindex), id, n, c);
        assert(entries_after(c, LB_BACKENDS_MAP@, done).remove(key) =~= c.remove(key));
        assert(entries_after(c, LB_DEV_MAP@, done).remove(key) =~= c.remove(key));
        assert(same_but(entries_after(c, LB_BACKENDS_MAP@, done), c, key));
        assert forall|map: Seq<char>|
            map != LB_BACKENDS_MAP@ && map != LB_DEV_MAP@ && map
                != LB_META_MAP@ implies #[trigger] kept(map, done) by {
            assert forall|d: Entries| #[trigger] entries_after(d, map, done) == d by {
                other_maps_stay(d, map, writes.take(n));
            }
        }
    }
}

/// Taking a backend away makes its slot unused and takes its interface away;
/// the other slots stay, and so does every other map, the number of backends
/// among them. An unknown number changes nothing.
pub proof fn deleting_a_backend_clears_its_slot<H: Host>(
    h: &H,
    id: u32,
    done: Seq<Attempt>,
    r: Result<(), ErrorView>,
    c: Entries,
)
    requires
        backend_deleted(h, id, done, r),
    ensures
        r is Ok ==> {
            &&& entries_after(c, LB_BACKENDS_MAP@, done) == c.insert(
                le32(id),
                no_backend().bytes(),
            )
            &&& entries_after(c, LB_DEV_MAP@, done) == c.remove(le32(id))
        },
        forall|map: Seq<char>|
            map != LB_BACKENDS_MAP@ && map != LB_DEV_MAP@ ==> #[trigger] kept(map, done),
        kept(LB_META_MAP@, done),
{
    lemma_map_names();
    let writes = remove_writes(id);
    if writes_run(h, writes, done, r) {
        let stop = match r {
            Ok(_) => Ok::<(), (int, ErrorView)>(()),
            Err(e) => {
                let n = choose|n: int| #[trigger] all_written(h, writes, done, Err((n, e)));
                Err((n, e))
            },
        };
        let n = lemma_made_up_to(h, writes, done, stop);
        assert(writes.take(2) =~= writes);
        if r is Ok {
            lemma_two_changes(c, LB_BACKENDS_MAP@, writes);
            lemma_two_changes(c, LB_DEV_MAP@, writes);
        }
        assert forall|map: Seq<char>|
            map != LB_BACKENDS_MAP@ && map != LB_DEV_MAP@ implies #[trigger] kept(map, done) by {
            assert forall|d: Entries| #[trigger] entries_after(d, map, done) == d by {
                other_maps_stay(d, map, writes.take(n));
            }
        }
    } else {
        assert(done.len() == 0);
        assert(r is Err);
    }
}

proof fn lemma_flush_maps(list: Seq<(u32, BackendView)>, i: int)
    requires
        0 <= i < remove_all_writes(list).len(),
    ensures
        write_map(remove_all_writes(list)[i]) == LB_BACKENDS_MAP@ || write_map(
            remove_all_writes(list)[i],
        ) == LB_DEV_MAP@,
    decreases list.len(),
{
    let before = remove_all_writes(list.drop_last());
    if i < before.len() {
        lemma_flush_maps(list.drop_last(), i);
        assert(remove_all_writes(list)[i] == before[i]);
    } else {
        assert(remove_all_writes(list)[i] == remove_writes(list.last().0)[i - before.len()]);
    }
}

/// Taking all backends away touches `lb_backends` and `lb_devmap` alone: the
/// number of backends, and every other map, stays.
pub proof fn flushing_backends_keeps_other_maps<H: Host>(
    h: &H,
    done: Seq<Attempt>,
    r: Result<usize, ErrorView>,
    map: Seq<char>,
)
    requires
        backends_flushed(h, done, r),
        map != LB_BACKENDS_MAP@,
        map != LB_DEV_MAP@,
    ensures
        kept(map, done),
        kept(LB_META_MAP@, done),
{
    lemma_map_names();
    let list = choose|list: Result<Seq<(u32, BackendView)>, ErrorView>|
        {
            &&& #[trigger] backends_listed(h, list)
            &&& match list {
                Err(e) => r == Err::<usize, ErrorView>(e) && done.len() == 0,
                Ok(v) => backends_list_flushed(h, v, done, r),
            }
        };
    if let Ok(v) = list {
        let writes = remove_all_writes(v);
        let w = choose|w: Result<(), ErrorView>|
            {
                &&& #[trigger] writes_run(h, writes, done, w)
                &&& r == match w {
                    Ok(_) => Ok::<usize, ErrorView>(v.len() as usize),
                    Err(e) => Err(e),
                }
            };
        let stop = match w {
            Ok(_) => Ok::<(), (int, ErrorView)>(()),
            Err(e) => {
                let n = choose|n: int| #[trigger] all_written(h, writes, done, Err((n, e)));
                Err((n, e))
            },
        };
        let n = lemma_made_up_to(h, writes, done, stop);
        assert forall|i: int| 0 <= i < n implies write_map(#[trigger] writes.take(n)[i]) != map
            && write_map(writes.take(n)[i]) != LB_META_MAP@ by {
            lemma_flush_maps(v, i);
        }
        assert forall|d: Entries| #[trigger] entries_after(d, map, done) == d by {
            other_maps_stay(d, map, writes.take(n));
        }
        assert forall|d: Entries| #[trigger] entries_after(d, LB_META_MAP@, done) == d by {
            other_maps_stay(d, LB_META_MAP@, writes.take(n));
        }
    }
}

// ---- Services ----

/// Deleting a service that was just added takes the key away that adding it
/// wrote: what is left is what the map held without that key. The two need only
/// agree on the address, the port and the protocol.
pub proof fn deleting_an_added_service_takes_its_key<K: Kernel>(
    k: &K,
    added: ServiceSpec,
    deleted: ServiceSpec,
    a: Seq<Attempt>,
    b: Seq<Attempt>,
    c: Entries,
)
    requires
        added.addr@ == deleted.addr@,
        added.port == deleted.port,
        added.proto == deleted.proto,
        amended_writes_run(k, seq![service_add_write(added)], a, Ok(())),
        amended_writes_run(k, seq![service_delete_write(deleted)], b, Ok(())),
    ensures
        entries_after(c, LB_SERVICES_MAP@, a).contains_key(spec_key(deleted)),
        entries_after(c, LB_SERVICES_MAP@, a + b) == c.remove(spec_key(added)),
        !c.contains_key(spec_key(added)) ==> entries_after(c, LB_SERVICES_MAP@, a + b) == c,
{
    let name = LB_SERVICES_MAP@;
    let middle = entries_after(c, name, a);
    all_written_entries(k, seq![service_add_write(added)], a, Ok(()), c, name);
    all_written_entries(k, seq![service_delete_write(deleted)], b, Ok(()), middle, name);
    stretches_compose(c, name, a, b);
    reveal_with_fuel(all_changed, 2);
    assert(seq![service_add_write(added)].drop_last() =~= Seq::empty());
    assert(seq![service_delete_write(deleted)].drop_last() =~= Seq::empty());
    assert(middle == c.insert(spec_key(added), service_value(added.group, 0)));
    assert(entries_after(c, name, a + b) =~= c.remove(spec_key(added)));
}

/// The keys of the records are the keys of the map, each once, and each of the
/// length that a service's key has.
pub open spec fn all_services(records: Seq<Record>, c: Entries) -> bool {
    &&& forall|i: int|
        0 <= i < records.len() ==> (#[trigger] records[i]).value is Some && records[i].key@.len()
            == 20 && c.contains_key(records[i].key@)
    &&& forall|i: int, j: int|
        0 <= i < j < records.len() ==> (#[trigger] records[i]).key@ != (
        #[trigger] records[j]).key@
    &&& forall|key: Seq<u8>| #[trigger]
        c.contains_key(key) ==> exists|i: int|
            0 <= i < records.len() && (#[trigger] records[i]).key@ == key
}

proof fn lemma_services(records: Seq<Record>)
    requires
        forall|i: int| 0 <= i < records.len() ==> (#[trigger] records[i]).value is Some,
    ensures
        services_in(records).len() == records.len(),
        forall|i: int|
            0 <= i < records.len() ==> #[trigger] services_in(records)[i] == service_in(
                records[i].key@,
                records[i].value->0@,
            ),
    decreases records.len(),
{
    if records.len() > 0 {
        let r = records.drop_last();
        assert forall|i: int| 0 <= i < r.len() implies (#[trigger] r[i]).value is Some by {
            assert(r[i] == records[i]);
        }
        lemma_services(r);
        assert(records[records.len() - 1].value is Some);
        assert forall|i: int| 0 <= i < records.len() implies #[trigger] services_in(records)[i]
            == service_in(records[i].key@, records[i].value->0@) by {
            if i < r.len() {
                assert(services_in(records)[i] == services_in(r)[i]);
            }
        }
    }
}

/// The keys of the first `n` records go, and no others.
pub open spec fn without(c: Entries, records: Seq<Record>, n: int) -> Entries {
    c.remove_keys(
        Set::new(
            |key: Seq<u8>| exists|i: int| 0 <= i < n && (#[trigger] records[i]).key@ == key,
        ),
    )
}

/// The services of the first `n` records went, and those behind them stayed.
pub open spec fn first_went(c: Entries, records: Seq<Record>, n: int, done: Seq<Attempt>) -> bool {
    let after = entries_after(c, LB_SERVICES_MAP@, done);
    &&& 0 <= n < records.len()
    &&& after == without(c, records, n)
    &&& forall|i: int| n <= i < records.len() ==> after.contains_key((#[trigger] records[i]).key@)
}

proof fn lemma_without(c: Entries, records: Seq<Record>, n: int)
    requires
        all_services(records, c),
        0 <= n <= records.len(),
    ensures
        all_changed(c, LB_SERVICES_MAP@, flush_writes(services_in(records)).take(n)) == without(
            c,
            records,
            n,
        ),
    decreases n,
{
    lemma_services(records);
    let all = flush_writes(services_in(records));
    if n == 0 {
        assert(without(c, records, 0) =~= c);
    } else {
        lemma_without(c, records, n - 1);
        assert(all.take(n).drop_last() =~= all.take(n - 1));
        assert(records[n - 1].key@.len() == 20);
        listed_service_keeps_its_key(records[n - 1].key@, records[n - 1].value->0@);
        assert(services_in(records)[n - 1] == service_in(
            records[n - 1].key@,
            records[n - 1].value->0@,
        ));
        assert(all.take(n).last() == (WriteView::Delete {
            map: LB_SERVICES_MAP@,
            key: records[n - 1].key@,
        }));
        assert(without(c, records, n - 1).remove(records[n - 1].key@) =~= without(c, records, n))
            by {
            assert forall|key: Seq<u8>| without(c, records, n).contains_key(key)
                == without(c, records, n - 1).remove(records[n - 1].key@).contains_key(key) by {
                if key != records[n - 1].key@ {
                    if exists|i: int| 0 <= i < n && (#[trigger] records[i]).key@ == key {
                        let i = choose|i: int|
                            0 <= i < n && (#[trigger] records[i]).key@ == key;
                        assert(i < n - 1);
                    }
                }
            }
        }
    }
}

proof fn lemma_list_flushed<K: Kernel>(
    k: &K,
    records: Seq<Record>,
    done: Seq<Attempt>,
    r: Result<usize, ErrorView>,
    c: Entries,
)
    requires
        all_services(records, c),
        list_flushed(k, services_in(records), done, r),
    ensures
        r is Ok ==> entries_after(c, LB_SERVICES_MAP@, done) == Map::<Seq<u8>, Seq<u8>>::empty(),
        r is Err ==> exists|n: int| #[trigger] first_went(c, records, n, done),
{
    lemma_services(records);
    let writes = flush_writes(services_in(records));
    let w = choose|w: Result<(), ErrorView>|
        {
            &&& #[trigger] writes_run(k, writes, done, w)
            &&& r == match w {
                Ok(_) => Ok::<usize, ErrorView>(services_in(records).len() as usize),
                Err(e) => Err(e),
            }
        };
    match w {
        Ok(_) => {
            all_written_entries(k, writes, done, Ok(()), c, LB_SERVICES_MAP@);
            assert(writes.take(writes.len() as int) =~= writes);
            lemma_without(c, records, records.len() as int);
            assert(without(c, records, records.len() as int) =~= Map::empty());
        },
        Err(e) => {
            let n = choose|n: int| #[trigger] all_written(k, writes, done, Err((n, e)));
            all_written_entries(k, writes, done, Err((n, e)), c, LB_SERVICES_MAP@);
            lemma_without(c, records, n);
            assert forall|i: int| n <= i < records.len() implies without(
                c,
                records,
                n,
            ).contains_key((#[trigger] records[i]).key@) by {
                assert(c.contains_key(records[i].key@));
                if exists|j: int| 0 <= j < n && (#[trigger] records[j]).key@ == records[i].key@ {
                    let j = choose|j: int|
                        0 <= j < n && (#[trigger] records[j]).key@ == records[i].key@;
                    assert(records[j].key@ != records[i].key@);
                }
            }
            assert(first_went(c, records, n, done));
        },
    }
}

/// Deleting all services leaves their map empty. Where a deletion fails, that
/// service and all behind it in the list stay, and only those before it go.
/// Reading the map gives all its entries.
pub proof fn flushing_services_empties_the_map<K: Kernel>(
    k: &K,
    done: Seq<Attempt>,
    r: Result<usize, ErrorView>,
    c: Entries,
)
    requires
        services_flushed(k, done, r),
        forall|records: Seq<Record>|
            #[trigger] read(k, LB_SERVICES_MAP@, Ok(records)) ==> all_services(records, c),
    ensures
        r is Ok ==> entries_after(c, LB_SERVICES_MAP@, done) == Map::<Seq<u8>, Seq<u8>>::empty(),
        r is Err ==> done.len() == 0 || exists|records: Seq<Record>, n: int|
            read(k, LB_SERVICES_MAP@, Ok(records)) && #[trigger] first_went(c, records, n, done),
{
    let list = choose|list: Result<Seq<ServiceView>, ErrorView>|
        {
            &&& #[trigger] services_listed(k, list)
            &&& match list {
                Err(e) => r == Err::<usize, ErrorView>(e) && done.len() == 0,
                Ok(v) => list_flushed(k, v, done, r),
            }
        };
    if let Ok(v) = list {
        let records = choose|records: Result<Seq<Record>, ErrorView>|
            {
                &&& #[trigger] read(k, LB_SERVICES_MAP@, records)
                &&& list == match records {
                    Ok(v) => Ok::<Seq<ServiceView>, ErrorView>(services_in(v)),
                    Err(e) => Err(e),
                }
            };
        let all = records->Ok_0;
        assert(read(k, LB_SERVICES_MAP@, Ok(all)));
        lemma_list_flushed(k, all, done, r, c);
    }
}

// ---- Configurations ----

/// A walk over the keys of the map of a name meets every key it holds.
pub open spec fn lists_all<K: Kernel>(k: &K, name: Seq<char>, c: Entries) -> bool {
    forall|id: u32, keys: Vec<Vec<u8>>|
        #[trigger] call_ensures(K::keys, (k, id), keys) && opened(k, name, Ok(id)) ==> has_keys(
            keys@,
            c,
        )
}

/// Every key is among the ones given.
pub open spec fn has_keys(keys: Seq<Vec<u8>>, c: Entries) -> bool {
    forall|key: Seq<u8>| #[trigger]
        c.contains_key(key) ==> exists|i: int| 0 <= i < keys.len() && (#[trigger] keys[i])@ == key
}

/// The deletion of the key was tried and refused.
pub open spec fn refused(done: Seq<Attempt>, map: Seq<char>, key: Seq<u8>) -> bool {
    exists|i: int|
        {
            &&& 0 <= i < done.len()
            &&& (#[trigger] done[i]).reply is Err
            &&& done[i].write == (WriteView::Delete { map, key })
        }
}

proof fn lemma_deletions(
    keys: Seq<Vec<u8>>,
    id: u32,
    name: Seq<char>,
    done: Seq<Attempt>,
    c: Entries,
    key: Seq<u8>,
)
    requires
        deletions(keys, id, name, done),
        entries_after(c, name, done).contains_key(key),
    ensures
        c.contains_key(key),
        forall|i: int| 0 <= i < keys.len() && (#[trigger] keys[i])@ == key ==> done[i].reply is Err,
    decreases keys.len(),
{
    if keys.len() > 0 {
        let d = done.drop_last();
        let ks = keys.drop_last();
        assert forall|i: int| 0 <= i < ks.len() implies (#[trigger] d[i]).map == id && d[i].write
            == (WriteView::Delete { map: name, key: ks[i]@ }) by {
            assert(d[i] == done[i] && ks[i] == keys[i]);
        }
        let last = done[done.len() - 1];
        assert(last == done.last());
        assert(last.write == (WriteView::Delete { map: name, key: keys[keys.len() - 1]@ }));
        lemma_deletions(ks, id, name, d, c, key);
        assert forall|i: int| 0 <= i < keys.len() && (
        #[trigger] keys[i])@ == key implies done[i].reply is Err by {
            if i < ks.len() {
                assert(ks[i] == keys[i] && d[i] == done[i]);
            }
        }
    }
}

/// Clearing a map leaves only entries that it held and whose deletion the
/// kernel refused; no other map is changed.
pub proof fn clearing_leaves_only_what_is_refused<K: Kernel>(
    k: &K,
    name: Seq<char>,
    done: Seq<Attempt>,
    c: Entries,
)
    requires
        cleared(k, name, done, Ok(())),
        lists_all(k, name, c),
    ensures
        forall|key: Seq<u8>| #[trigger]
            entries_after(c, name, done).contains_key(key) ==> c.contains_key(key) && refused(
                done,
                name,
                key,
            ),
        forall|map: Seq<char>| map != name ==> #[trigger] kept(map, done),
{
    let id = choose|id: Result<u32, ErrorView>|
        {
            &&& #[trigger] opened(k, name, id)
            &&& match id {
                Err(e) => false,
                Ok(map) => keys_deleted(k, map, name, done),
            }
        };
    let map = id->Ok_0;
    let keys = choose|keys: Vec<Vec<u8>>|
        #[trigger] call_ensures(K::keys, (k, map), keys) && deletions(keys@, map, name, done);
    assert(opened(k, name, Ok(map)));
    assert(has_keys(keys@, c));
    assert forall|key: Seq<u8>| #[trigger]
        entries_after(c, name, done).contains_key(key) implies c.contains_key(key) && refused(
        done,
        name,
        key,
    ) by {
        lemma_deletions(keys@, map, name, done, c, key);
        let i = choose|i: int| 0 <= i < keys@.len() && (#[trigger] keys@[i])@ == key;
        assert(done[i].reply is Err);
        assert(done[i].write == (WriteView::Delete { map: name, key }));
    }
    assert forall|m: Seq<char>| m != name implies #[trigger] kept(m, done) by {
        assert forall|d: Entries| #[trigger] entries_after(d, m, done) == d by {
            assert forall|i: int| 0 <= i < done.len() implies (#[trigger] done[i]).reply is Err
                || write_map(done[i].write) != m by {
                assert(done[i].write == (WriteView::Delete { map: name, key: keys@[i]@ }));
            }
            failures_change_nothing(d, m, done);
        }
    }
}

/// The entries of a map after the steps of a plan.
pub open spec fn planned(c: Entries, map: Seq<char>, steps: Seq<StepView>) -> Entries
    decreases steps.len(),
{
    if steps.len() == 0 {
        c
    } else {
        let before = planned(c, map, steps.drop_last());
        match step_write(steps.last()) {
            Ok(w) => changed(before, map, w),
            Err(_) => before,
        }
    }
}

proof fn lemma_planned<K: Kernel>(
    k: &K,
    c: Entries,
    map: Seq<char>,
    steps: Seq<StepView>,
    done: Seq<Attempt>,
)
    requires
        steps_run(k, steps, done, Ok(())),
    ensures
        entries_after(c, map, done) == planned(c, map, steps),
    decreases steps.len(),
{
    if steps.len() > 0 {
        let st = steps.drop_last();
        let d = done.drop_last();
        assert forall|i: int| 0 <= i < st.len() implies step_made(k, #[trigger] st[i], d[i]) by {
            assert(st[i] == steps[i] && d[i] == done[i]);
        }
        lemma_planned(k, c, map, st, d);
        assert(step_made(k, steps[steps.len() - 1], done[done.len() - 1]));
        reveal(step_made);
    }
}

/// A plan of which a step fails leaves what the steps before it say.
pub proof fn failed_plan_leaves_the_steps_before<K: Kernel>(
    k: &K,
    steps: Seq<StepView>,
    done: Seq<Attempt>,
    e: ErrorView,
)
    requires
        steps_run(k, steps, done, Err(e)),
    ensures
        exists|n: int|
            {
                &&& #[trigger] step_failed(k, steps, n, done, e)
                &&& forall|c: Entries, map: Seq<char>| #[trigger]
                    entries_after(c, map, done) == planned(c, map, steps.take(n))
            },
{
    let n = choose|n: int| #[trigger] step_failed(k, steps, n, done, e);
    let a = done.take(n);
    let b = done.skip(n);
    assert(a + b =~= done);
    assert forall|i: int| 0 <= i < n implies step_made(k, #[trigger] steps.take(n)[i], a[i]) by {
        assert(steps.take(n)[i] == steps[i]);
    }
    lemma_step_done(k, steps[n], b, Err(e));
    assert forall|c: Entries, map: Seq<char>| #[trigger]
        entries_after(c, map, done) == planned(c, map, steps.take(n)) by {
        lemma_planned(k, c, map, steps.take(n), a);
        stretches_compose(c, map, a, b);
        failures_change_nothing(entries_after(c, map, a), map, b);
    }
}

proof fn lemma_other_steps(c: Entries, map: Seq<char>, steps: Seq<StepView>)
    requires
        map != L4_ACL_MAP@,
        map != VLAN_ACL_MAP@,
    ensures
        planned(c, map, steps) == c,
    decreases steps.len(),
{
    if steps.len() > 0 {
        lemma_other_steps(c, map, steps.drop_last());
    }
}

/// A configuration that was applied, with no deletion refused, leaves in the
/// two ACL maps exactly the entries of its plan, a later rule with the key of
/// an earlier one in its place, and the mask of its logging in the event mask;
/// every other map stays.
pub proof fn applied_configuration_is_what_the_maps_hold<K: Kernel>(
    k: &K,
    config: Config,
    done: Seq<Attempt>,
    rules: Entries,
    tags: Entries,
)
    requires
        applied(k, config, done, Ok(())),
        forall|i: int| 0 <= i < done.len() ==> (#[trigger] done[i]).reply is Ok,
        lists_all(k, L4_ACL_MAP@, rules),
        lists_all(k, VLAN_ACL_MAP@, tags),
    ensures
        entries_after(rules, L4_ACL_MAP@, done) == planned(Map::empty(), L4_ACL_MAP@, plan(config)),
        entries_after(tags, VLAN_ACL_MAP@, done) == planned(
            Map::empty(),
            VLAN_ACL_MAP@,
            plan(config),
        ),
        forall|c: Entries| #[trigger]
            entries_after(c, EVENT_MASK_MAP@, done) == c.insert(
                le32(0),
                le64(logging_mask(config.logging)),
            ),
        forall|map: Seq<char>|
            map != L4_ACL_MAP@ && map != VLAN_ACL_MAP@ && map != EVENT_MASK_MAP@
                ==> #[trigger] kept(map, done),
{
    lemma_map_names();
    let ok = Ok::<(), ErrorView>(());
    let (a, b1, c1) = choose|a: Seq<Attempt>, b: Seq<Attempt>, c1: Result<(), ErrorView>|
        {
            &&& done == #[trigger] (a + b)
            &&& #[trigger] cleared(k, L4_ACL_MAP@, a, c1)
            &&& match c1 {
                Err(e) => ok == Err::<(), ErrorView>(e) && b.len() == 0,
                Ok(_) => applied_after_rules(k, config, b, ok),
            }
        };
    let (b, c0, c2) = choose|a: Seq<Attempt>, b: Seq<Attempt>, c2: Result<(), ErrorView>|
        {
            &&& b1 == #[trigger] (a + b)
            &&& #[trigger] cleared(k, VLAN_ACL_MAP@, a, c2)
            &&& match c2 {
                Err(e) => ok == Err::<(), ErrorView>(e) && b.len() == 0,
                Ok(_) => plan_applied(k, config, b, ok),
            }
        };
    let (p, m, c3) = choose|a: Seq<Attempt>, b: Seq<Attempt>, c3: Result<(), ErrorView>|
        {
            &&& c0 == #[trigger] (a + b)
            &&& #[trigger] steps_run(k, plan(config), a, c3)
            &&& match c3 {
                Err(e) => ok == Err::<(), ErrorView>(e) && b.len() == 0,
                Ok(_) => written(k, mask_write(logging_mask(config.logging)), b, ok),
            }
        };
    let none = Map::<Seq<u8>, Seq<u8>>::empty();
    assert forall|i: int| 0 <= i < a.len() implies (#[trigger] a[i]).reply is Ok by {
        assert(done[i] == a[i]);
    }
    assert forall|i: int| 0 <= i < b.len() implies (#[trigger] b[i]).reply is Ok by {
        assert(done[a.len() + i] == b[i]);
    }
    clearing_leaves_only_what_is_refused(k, L4_ACL_MAP@, a, rules);
    clearing_leaves_only_what_is_refused(k, VLAN_ACL_MAP@, b, tags);
    assert(entries_after(rules, L4_ACL_MAP@, a) =~= none);
    assert(entries_after(tags, VLAN_ACL_MAP@, b) =~= none);
    let mask = mask_write(logging_mask(config.logging));
    assert forall|c: Entries, map: Seq<char>| #[trigger]
        entries_after(c, map, done) == changed(
            planned(
                entries_after(entries_after(c, map, a), map, b),
                map,
                plan(config),
            ),
            map,
            mask,
        ) by {
        stretches_compose(c, map, a, b1);
        let after_a = entries_after(c, map, a);
        stretches_compose(after_a, map, b, c0);
        let after_b = entries_after(after_a, map, b);
        stretches_compose(after_b, map, p, m);
        lemma_planned(k, after_b, map, plan(config), p);
        written_entries(k, mask, m, ok, entries_after(after_b, map, p), map);
    }
    assert(kept(L4_ACL_MAP@, b));
    assert(kept(VLAN_ACL_MAP@, a));
    assert(kept(EVENT_MASK_MAP@, a));
    assert(kept(EVENT_MASK_MAP@, b));
    assert forall|c: Entries| #[trigger]
        entries_after(c, EVENT_MASK_MAP@, done) == c.insert(
            le32(0),
            le64(logging_mask(config.logging)),
        ) by {
        lemma_other_steps(c, EVENT_MASK_MAP@, plan(config));
    }
    assert forall|map: Seq<char>|
        map != L4_ACL_MAP@ && map != VLAN_ACL_MAP@ && map
            != EVENT_MASK_MAP@ implies #[trigger] kept(map, done) by {
        assert(kept(map, a) && kept(map, b));
        assert forall|c: Entries| #[trigger] entries_after(c, map, done) == c by {
            lemma_other_steps(c, map, plan(config));
        }
    }
}

/// The last that is done to a map when a configuration is applied is its plan,
/// and after it the event mask is stored.
pub proof fn applied_ends_with_the_plan<K: Kernel>(
    k: &K,
    config: Config,
    done: Seq<Attempt>,
    c: Entries,
    map: Seq<char>,
) -> (r: (Entries, Seq<Attempt>))
    requires
        applied(k, config, done, Ok(())),
    ensures
        steps_run(k, plan(config), r.1, Ok(())),
        entries_after(c, map, done) == changed(
            planned(r.0, map, plan(config)),
            map,
            mask_write(logging_mask(config.logging)),
        ),
{
    let ok = Ok::<(), ErrorView>(());
    let (a, b1, c1) = choose|a: Seq<Attempt>, b: Seq<Attempt>, c1: Result<(), ErrorView>|
        {
            &&& done == #[trigger] (a + b)
            &&& #[trigger] cleared(k, L4_ACL_MAP@, a, c1)
            &&& match c1 {
                Err(e) => ok == Err::<(), ErrorView>(e) && b.len() == 0,
                Ok(_) => applied_after_rules(k, config, b, ok),
            }
        };
    let (b, c0, c2) = choose|a: Seq<Attempt>, b: Seq<Attempt>, c2: Result<(), ErrorView>|
        {
            &&& b1 == #[trigger] (a + b)
            &&& #[trigger] cleared(k, VLAN_ACL_MAP@, a, c2)
            &&& match c2 {
                Err(e) => ok == Err::<(), ErrorView>(e) && b.len() == 0,
                Ok(_) => plan_applied(k, config, b, ok),
            }
        };
    let (p, m, c3) = choose|a: Seq<Attempt>, b: Seq<Attempt>, c3: Result<(), ErrorView>|
        {
            &&& c0 == #[trigger] (a + b)
            &&& #[trigger] steps_run(k, plan(config), a, c3)
            &&& match c3 {
                Err(e) => ok == Err::<(), ErrorView>(e) && b.len() == 0,
                Ok(_) => written(k, mask_write(logging_mask(config.logging)), b, ok),
            }
        };
    let after_a = entries_after(c, map, a);
    let after_b = entries_after(after_a, map, b);
    stretches_compose(c, map, a, b1);
    stretches_compose(after_a, map, b, c0);
    stretches_compose(after_b, map, p, m);
    lemma_planned(k, after_b, map, plan(config), p);
    written_entries(
        k,
        mask_write(logging_mask(config.logging)),
        m,
        ok,
        entries_after(after_b, map, p),
        map,
    );
    (after_b, p)
}

/// A configuration that cannot be loaded changes nothing.
pub proof fn failed_load_changes_nothing<H: Host>(
    h: &H,
    path: Seq<char>,
    done: Seq<Attempt>,
    r: Result<(), ErrorView>,
)
    requires
        reloaded(h, path, done, r),
        forall|p: String, reply: Result<Config, MapError>|
            p@ == path && #[trigger] call_ensures(H::load_config, (h, p), reply) ==> reply is Err,
    ensures
        r is Err,
        unchanged(done),
{
}

} // verus!
