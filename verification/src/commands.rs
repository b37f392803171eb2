//! What each command does to the maps, byte by byte, and what it answers.
use vstd::prelude::*;

use crate::acl_key::{parsed_acl_addr, parsed_ipv4, AddrView};
use crate::agreement::rules_say_what_their_words_say;
use crate::bytes::{from_le16, from_le32, le16, le32};
use crate::daemon::api::answered;
use crate::daemon::backend::{interface_resolved, LB_BACKENDS_MAP, LB_DEV_MAP, LB_META_MAP};
use crate::daemon::contents::{
    adding_a_backend_sets_its_slot, adding_a_rule_sets_its_entry, all_changed, all_written_entries,
    changed, deleting_a_backend_clears_its_slot, deleting_a_rule_takes_one_key,
    deleting_a_vlan_rule_takes_one_key, entries_after, kept, unchanged, written_entries, Entries,
};
use crate::daemon::config::Config;
use crate::daemon::host::Host;
use crate::daemon::kernel::{
    amended_writes_run, looked_up, opened, read, written, ErrorView, Kernel, MapError, Record,
    WriteView, EVENT_MASK_MAP, L4_ACL_MAP, VLAN_ACL_MAP,
};
use crate::daemon::maps::{
    acl_entries, acl_entry, acl_listed, entry_key, keys_counted, keys_counted_in, mask_read,
    mask_write, parsed_action, rule_added, rule_deleted, vlan_added, vlan_deleted, vlan_entries,
    vlan_key, vlan_listed, vlan_write, AclEntryView, VlanEntryView,
};
use crate::daemon::reload::{applied, reloaded};
use crate::daemon::service::{service_add_write, service_delete_write, spec_key, ServiceSpec};
use crate::daemon::session::Attempt;
use crate::laws::address_fits;
use crate::maps::AclAction;
use crate::protocol::{CommandView, ResponseView};
use crate::purpose::{address_byte, rule_entry_is_laid_out, tag_entry, vlan_entry_is_laid_out};
use crate::records::{no_backend, BackendSpec};
use crate::text::decimal;

verus! {

/// One of two numbers.
pub open spec fn either(first: bool, a: u8, b: u8) -> u8 {
    if first {
        a
    } else {
        b
    }
}

/// A tag, 0 where none is given.
pub open spec fn tag_or_none(tag: Option<u16>) -> u16 {
    match tag {
        Some(n) => n,
        None => 0,
    }
}

/// A rate, 0 where none is given.
pub open spec fn rate_or_none(rate: Option<u32>) -> u32 {
    match rate {
        Some(n) => n,
        None => 0,
    }
}

// ---- Rules ----

/// The bytes are those of a rule's entry.
pub open spec fn rule_entry(
    key: Seq<u8>,
    value: Seq<u8>,
    src: AddrView,
    dst: AddrView,
    proto: u8,
    sport: u16,
    dport: u16,
    action: u8,
    rate: u32,
) -> bool {
    &&& key.len() == 48
    &&& key[4] == if src.v6 {
        6u8
    } else {
        4
    }
    &&& forall|i: int| 0 <= i < 16 ==> #[trigger] key[5 + i] == address_byte(src, i)
    &&& forall|i: int| 0 <= i < 16 ==> #[trigger] key[21 + i] == address_byte(dst, i)
    &&& key[37] == proto
    &&& key[38] + 256 * key[39] == dport
    &&& key[40] + 256 * key[41] == sport
    &&& forall|i: int| 42 <= i < 48 ==> #[trigger] key[i] == 0
    &&& value.len() == 16
    &&& value[0] == action && value[1] == 0 && value[2] == 0 && value[3] == 0
    &&& value[4] + 256 * value[5] + 65536 * value[6] + 16777216 * value[7] == rate
    &&& forall|i: int| 8 <= i < 16 ==> #[trigger] value[i] == 0
}

/// The command to add a rule sets one entry of the ACL: that of the addresses,
/// ports and protocol that it names, with its action and rate. Every other entry
/// and map stays.
pub proof fn add_command_sets_the_entry<H: Host>(
    h: &H,
    iface: Seq<char>,
    drops: bool,
    udp: bool,
    src: Seq<char>,
    sport: u16,
    dst: Seq<char>,
    dport: u16,
    rate: u32,
    a: AddrView,
    b: AddrView,
    known: Option<u32>,
    t: Seq<Attempt>,
    r: Result<ResponseView, Seq<char>>,
    c: Entries,
)
    requires
        src.len() > 0 && dst.len() > 0,
        forall|i: int| 0 <= i < src.len() ==> src[i] != '[' && src[i] != ']',
        forall|i: int| 0 <= i < dst.len() ==> dst[i] != '[' && dst[i] != ']',
        parsed_acl_addr(src) == Ok::<AddrView, Seq<char>>(a) && address_fits(a),
        parsed_acl_addr(dst) == Ok::<AddrView, Seq<char>>(b) && address_fits(b),
        answered(
            h,
            (CommandView::AclAdd {
                iface,
                action: if drops {
                    "drop"@
                } else {
                    "allow"@
                },
                src: src + ":"@ + decimal(sport as int),
                dst: dst + ":"@ + decimal(dport as int),
                proto: Some(
                    if udp {
                        "udp"@
                    } else {
                        "tcp"@
                    },
                ),
                rate: Some(rate),
            }),
            known,
            t,
            r,
        ),
    ensures
        r is Ok ==> exists|key: Seq<u8>, value: Seq<u8>|
            {
                &&& #[trigger] rule_entry(
                    key,
                    value,
                    a,
                    b,
                    either(udp, 17, 6),
                    sport,
                    dport,
                    either(drops, 1, 0),
                    rate,
                )
                &&& entries_after(c, "l4_acl"@, t) == c.insert(key, value)
            },
        r is Err ==> unchanged(t),
        forall|map: Seq<char>| map != "l4_acl"@ ==> #[trigger] kept(map, t),
{
    let action = if drops {
        "drop"@
    } else {
        "allow"@
    };
    let proto = if udp {
        "udp"@
    } else {
        "tcp"@
    };
    let s = src + ":"@ + decimal(sport as int);
    let d = dst + ":"@ + decimal(dport as int);
    rules_say_what_their_words_say(drops, udp, src, sport, dst, dport, Some(rate), a, b);
    let w = choose|w: Result<(), ErrorView>|
        {
            &&& #[trigger] rule_added(h, action, s, d, Some(proto), Some(rate), t, w)
            &&& r is Ok <==> w is Ok
        };
    adding_a_rule_sets_its_entry(h, action, s, d, Some(proto), Some(rate), t, w, c);
    let rule = crate::daemon::maps::parsed_rule(action, s, d, Some(proto), Some(rate))->Ok_0;
    rule_entry_is_laid_out(rule);
    assert(rule_entry(
        rule.key(),
        rule.value(),
        a,
        b,
        either(udp, 17, 6),
        sport,
        dport,
        either(drops, 1, 0),
        rate,
    ));
}

/// The command to add a VLAN rule sets one entry of the VLAN ACL: that of the
/// tags it names, with 1 for an action that drops and 0 for one that allows, and
/// the rate, 0 where none is given.
pub proof fn vlan_add_command_sets_the_entry<H: Host>(
    h: &H,
    iface: Seq<char>,
    vlan_id: u16,
    inner_vlan: Option<u16>,
    drops: bool,
    rate: Option<u32>,
    known: Option<u32>,
    t: Seq<Attempt>,
    r: Result<ResponseView, Seq<char>>,
    c: Entries,
)
    requires
        answered(
            h,
            (CommandView::AclVlanAdd {
                iface,
                vlan_id,
                action: if drops {
                    "drop"@
                } else {
                    "allow"@
                },
                inner_vlan,
                rate,
            }),
            known,
            t,
            r,
        ),
    ensures
        r is Ok ==> exists|key: Seq<u8>, value: Seq<u8>|
            {
                &&& #[trigger] tag_entry(
                    vlan_id,
                    tag_or_none(inner_vlan),
                    either(drops, 1, 0),
                    rate_or_none(rate),
                    key,
                    value,
                )
                &&& entries_after(c, "vlan_acl"@, t) == c.insert(key, value)
            },
        r is Err ==> unchanged(t),
        forall|map: Seq<char>| map != "vlan_acl"@ ==> #[trigger] kept(map, t),
{
    let action = if drops {
        "drop"@
    } else {
        "allow"@
    };
    let w = choose|w: Result<(), ErrorView>|
        {
            &&& #[trigger] vlan_added(h, vlan_id, inner_vlan, action, rate, t, w)
            &&& r is Ok <==> w is Ok
        };
    assert(parsed_action(action) == Ok::<AclAction, Seq<char>>(
        if drops {
            AclAction::Drop
        } else {
            AclAction::Allow
        },
    )) by {
        reveal_strlit("drop");
        reveal_strlit("allow");
        assert("drop"@.len() == 4 && "allow"@.len() == 5);
    }
    let a = if drops {
        AclAction::Drop
    } else {
        AclAction::Allow
    };
    let write = vlan_write(vlan_id, inner_vlan, a, rate);
    assert(written(h, write, t, w));
    vlan_entry_is_laid_out(vlan_id, inner_vlan, a, rate);
    assert forall|d: Entries, map: Seq<char>| #[trigger]
        entries_after(d, map, t) == if w is Ok {
            changed(d, map, write)
        } else {
            d
        } by {
        written_entries(h, write, t, w, d, map);
    }
    assert(tag_entry(
        vlan_id,
        tag_or_none(inner_vlan),
        either(drops, 1, 0),
        rate_or_none(rate),
        write->Update_key,
        write->value,
    ));
}

proof fn lemma_acl_entries(records: Seq<Record>, i: int)
    requires
        forall|j: int| 0 <= j < records.len() ==> (#[trigger] records[j]).value is Some,
        0 <= i < records.len(),
    ensures
        acl_entries(records).len() == records.len(),
        acl_entries(records)[i] == acl_entry(i, records[i].key@, records[i].value->0@),
    decreases records.len(),
{
    let rest = records.drop_last();
    assert forall|j: int| 0 <= j < rest.len() implies (#[trigger] rest[j]).value is Some by {
        assert(rest[j] == records[j]);
    }
    assert(records[records.len() - 1].value is Some);
    if rest.len() == 0 {
        assert(acl_entries(rest) =~= Seq::empty());
    } else if i < rest.len() {
        lemma_acl_entries(rest, i);
        assert(rest[i] == records[i]);
    } else {
        lemma_acl_entries(rest, 0);
    }
}

proof fn lemma_le32_bytes(k: Seq<u8>)
    requires
        k.len() >= 4,
    ensures
        le32(from_le32(k)) == k.take(4),
{
    let a = k[0] as int;
    let b = k[1] as int;
    let c = k[2] as int;
    let d = k[3] as int;
    let v = from_le32(k);
    assert(v == a + 256 * b + 65536 * c + 16777216 * d);
    assert(v / 256 == b + 256 * c + 65536 * d);
    assert(v / 65536 == c + 256 * d);
    assert(v / 16777216 == d);
    assert(le32(v) =~= k.take(4));
}

proof fn lemma_le16_bytes(k: Seq<u8>)
    requires
        k.len() >= 2,
    ensures
        le16(from_le16(k)) == k.take(2),
{
    assert(le16(from_le16(k)) =~= k.take(2));
}

proof fn lemma_key_of_entry(k: Seq<u8>, v: Seq<u8>, id: int)
    requires
        k.len() == 48,
        forall|i: int| 42 <= i < 48 ==> #[trigger] k[i] == 0,
    ensures
        entry_key(acl_entry(id, k, v)) == k,
{
    let e = acl_entry(id, k, v);
    lemma_le32_bytes(k);
    lemma_le16_bytes(k.skip(38));
    lemma_le16_bytes(k.skip(40));
    let a = le32(e.prefix_len);
    let d = le16(e.dst_port);
    let s = le16(e.src_port);
    assert(a == k.take(4));
    assert(d == k.skip(38).take(2));
    assert(s == k.skip(40).take(2));
    assert(le16(0) =~= seq![0u8, 0]);
    let out = a + seq![e.family] + e.src_addr + e.dst_addr + seq![e.ip_proto] + d + s + seq![0u8, 0]
        + seq![0u8, 0] + seq![0u8, 0];
    assert(out =~= k);
}

/// The command to delete a rule takes away the key that stands at its number in
/// the list, and nothing else. The list shows all entries in the order in which
/// they are read.
pub proof fn del_command_takes_the_numbered_key<H: Host>(
    h: &H,
    iface: Seq<char>,
    id: usize,
    known: Option<u32>,
    t: Seq<Attempt>,
    r: Result<ResponseView, Seq<char>>,
    c: Entries,
    records: Seq<Record>,
)
    requires
        answered(h, CommandView::AclDel { iface, id }, known, t, r),
        forall|v: Result<Seq<Record>, ErrorView>|
            #[trigger] read(h, "l4_acl"@, v) ==> v == Ok::<Seq<Record>, ErrorView>(records),
        forall|j: int|
            0 <= j < records.len() ==> (#[trigger] records[j]).value is Some
                && records[j].key@.len() == 48 && (forall|i: int|
                42 <= i < 48 ==> #[trigger] records[j].key@[i] == 0),
    ensures
        r is Ok ==> id < records.len() && entries_after(c, "l4_acl"@, t) == c.remove(
            records[id as int].key@,
        ),
        r is Err ==> unchanged(t),
        id >= records.len() ==> r is Err && t.len() == 0,
        forall|map: Seq<char>| map != "l4_acl"@ ==> #[trigger] kept(map, t),
{
    let w = choose|w: Result<(), ErrorView>|
        {
            &&& #[trigger] rule_deleted(h, id as int, t, w)
            &&& r is Ok <==> w is Ok
        };
    deleting_a_rule_takes_one_key(h, id as int, t, w, c);
    if records.len() == 0 {
        assert(acl_entries(records) =~= Seq::empty());
    } else {
        lemma_acl_entries(records, 0);
    }
    if id < records.len() {
        lemma_acl_entries(records, id as int);
        let k = records[id as int].key@;
        lemma_key_of_entry(k, records[id as int].value->0@, id as int);
    }
    assert forall|v: Seq<AclEntryView>| #[trigger] acl_listed(h, Ok(v)) implies v == acl_entries(
        records,
    ) by {
        let rr = choose|rr: Result<Seq<Record>, ErrorView>|
            {
                &&& #[trigger] read(h, L4_ACL_MAP@, rr)
                &&& Ok::<Seq<AclEntryView>, ErrorView>(v) == match rr {
                    Ok(x) => Ok::<Seq<AclEntryView>, ErrorView>(acl_entries(x)),
                    Err(e) => Err(e),
                }
            };
        assert(rr == Ok::<Seq<Record>, ErrorView>(records));
    }
    assert forall|e: ErrorView| !(#[trigger] acl_listed(h, Err(e))) by {
        if acl_listed(h, Err(e)) {
            let rr = choose|rr: Result<Seq<Record>, ErrorView>|
                {
                    &&& #[trigger] read(h, L4_ACL_MAP@, rr)
                    &&& Err::<Seq<AclEntryView>, ErrorView>(e) == match rr {
                        Ok(x) => Ok::<Seq<AclEntryView>, ErrorView>(acl_entries(x)),
                        Err(e) => Err(e),
                    }
                };
            assert(rr == Ok::<Seq<Record>, ErrorView>(records));
        }
    }
}

// ---- The event mask ----

/// The number that eight bytes write, the low one first.
pub open spec fn number8(v: Seq<u8>) -> int {
    v[0] + 256 * v[1] + 65536 * v[2] + 16777216 * v[3] + 4294967296 * v[4] + 1099511627776 * v[5]
        + 281474976710656 * v[6] + 72057594037927936 * v[7]
}

/// The key of the only entry of a map: four zeros.
pub open spec fn only_key() -> Seq<u8> {
    seq![0u8, 0, 0, 0]
}

/// The command to set the event mask stores it under the key 0, eight bytes with
/// the low one first.
pub proof fn mask_command_stores_the_mask<H: Host>(
    h: &H,
    mask: u64,
    known: Option<u32>,
    t: Seq<Attempt>,
    r: Result<ResponseView, Seq<char>>,
    c: Entries,
)
    requires
        answered(h, CommandView::EventMaskSet { mask }, known, t, r),
    ensures
        r is Ok ==> exists|value: Seq<u8>|
            {
                &&& value.len() == 8
                &&& #[trigger] number8(value) == mask
                &&& entries_after(c, "event_mask"@, t) == c.insert(only_key(), value)
            },
        r is Err ==> unchanged(t),
        forall|map: Seq<char>| map != "event_mask"@ ==> #[trigger] kept(map, t),
{
    let write = mask_write(mask);
    let w = choose|w: Result<(), ErrorView>|
        {
            &&& #[trigger] written(h, write, t, w)
            &&& r is Ok <==> w is Ok
        };
    assert forall|d: Entries, map: Seq<char>| #[trigger]
        entries_after(d, map, t) == if w is Ok {
            changed(d, map, write)
        } else {
            d
        } by {
        written_entries(h, write, t, w, d, map);
    }
    assert(le32(0) =~= only_key());
    lemma_number8(mask);
}

proof fn lemma_number8(mask: u64)
    ensures
        crate::bytes::le64(mask).len() == 8,
        number8(crate::bytes::le64(mask)) == mask,
{
    let lo = (mask % 0x1_0000_0000) as u32;
    let hi = (mask / 0x1_0000_0000) as u32;
    lemma_number4(lo);
    lemma_number4(hi);
    let v = crate::bytes::le64(mask);
    let a = le32(lo);
    let b = le32(hi);
    assert(v[0] == a[0] && v[1] == a[1] && v[2] == a[2] && v[3] == a[3]);
    assert(v[4] == b[0] && v[5] == b[1] && v[6] == b[2] && v[7] == b[3]);
    assert(mask == lo + 4294967296 * hi);
}

proof fn lemma_number4(v: u32)
    ensures
        le32(v).len() == 4,
        le32(v)[0] + 256 * le32(v)[1] + 65536 * le32(v)[2] + 16777216 * le32(v)[3] == v,
{
}

/// The command that asks for the event mask answers with the number that the
/// entry under the key 0 writes.
pub proof fn mask_is_read_from_the_entry<H: Host>(
    h: &H,
    known: Option<u32>,
    t: Seq<Attempt>,
    r: Result<ResponseView, Seq<char>>,
)
    requires
        answered(h, CommandView::EventMaskGet, known, t, r),
        r is Ok,
    ensures
        r->Ok_0 matches ResponseView::MaskResult(m) && exists|v: Vec<u8>|
            {
                &&& #[trigger] looked_up(h, "event_mask"@, only_key(), Ok(Some(v)))
                &&& v@.len() >= 8
                &&& m == number8(v@)
            },
{
    let m = choose|m: Result<u64, ErrorView>|
        {
            &&& #[trigger] mask_read(h, m)
            &&& m is Ok && r->Ok_0 == ResponseView::MaskResult(m->Ok_0)
        };
    let found = choose|found: Result<Option<Vec<u8>>, ErrorView>|
        {
            &&& #[trigger] looked_up(h, EVENT_MASK_MAP@, le32(0), found)
            &&& m == match found {
                Ok(v) => crate::daemon::maps::mask_in(v),
                Err(e) => Err(e),
            }
        };
    assert(le32(0) =~= only_key());
    assert(found is Ok && found->Ok_0 is Some);
    let v = found->Ok_0->0;
    assert(looked_up(h, "event_mask"@, only_key(), Ok(Some(v))));
}

// ---- Services ----

/// The bytes are those of a service's key: its address behind ten zeros and two
/// bytes of ones, its port with the low byte first, its protocol, and 4.
pub open spec fn service_entry_key(key: Seq<u8>, addr: Seq<u8>, port: u16, tcp: bool) -> bool {
    &&& key.len() == 20
    &&& forall|i: int| 0 <= i < 10 ==> #[trigger] key[i] == 0
    &&& key[10] == 255 && key[11] == 255
    &&& forall|i: int| 0 <= i < 4 ==> #[trigger] addr[i] == key[12 + i]
    &&& key[16] + 256 * key[17] == port
    &&& key[18] == if tcp {
        6u8
    } else {
        17
    }
    &&& key[19] == 4
}

proof fn lemma_service_key(spec: ServiceSpec)
    ensures
        spec.proto == 6 || spec.proto == 17 ==> service_entry_key(
            spec_key(spec),
            spec.addr@.addr,
            spec.port,
            spec.proto == 6,
        ),
{
    let k = spec_key(spec);
    assert(spec.addr@.addr.len() == 4);
    assert forall|i: int| 0 <= i < 4 implies #[trigger] spec.addr@.addr[i] == k[12 + i] by {}
}

/// The command to add a service sets the entry of its address, port and
/// protocol, which is UDP for any word but `tcp`, with its group in the first four
/// bytes of the value and no flags.
pub proof fn service_command_sets_the_entry<H: Host>(
    h: &H,
    iface: Seq<char>,
    addr: Seq<char>,
    port: u16,
    word: Seq<char>,
    tcp: bool,
    group: u32,
    known: Option<u32>,
    t: Seq<Attempt>,
    r: Result<ResponseView, Seq<char>>,
    c: Entries,
)
    requires
        tcp == (word == "tcp"@),
        answered(
            h,
            (CommandView::ServiceAdd {
                iface,
                addr,
                port,
                proto: word,
                group: Some(group),
            }),
            known,
            t,
            r,
        ),
    ensures
        r is Ok ==> parsed_ipv4(addr) is Ok && exists|key: Seq<u8>, value: Seq<u8>|
            {
                &&& #[trigger] service_entry_key(key, parsed_ipv4(addr)->Ok_0.addr, port, tcp)
                &&& value.len() == 28
                &&& value[0] + 256 * value[1] + 65536 * value[2] + 16777216 * value[3] == group
                &&& forall|i: int| 4 <= i < 28 ==> #[trigger] value[i] == 0
                &&& #[trigger] c.insert(key, value) == entries_after(c, "lb_services"@, t)
            },
        forall|map: Seq<char>| map != "lb_services"@ ==> #[trigger] kept(map, t),
        parsed_ipv4(addr) is Err ==> r is Err && t.len() == 0,
{
    if parsed_ipv4(addr) is Ok {
        let (spec, w) = choose|spec: ServiceSpec, w: Result<(), ErrorView>|
            {
                &&& crate::daemon::api::service_matches(spec, addr, port, word, group)
                &&& #[trigger] amended_writes_run(h, seq![service_add_write(spec)], t, w)
                &&& r is Ok <==> w is Ok
            };
        lemma_service_key(spec);
        lemma_one_write(h, service_add_write(spec), t, w);
        if w is Ok {
            let value = service_add_write(spec)->value;
            assert(service_entry_key(spec_key(spec), parsed_ipv4(addr)->Ok_0.addr, port, tcp));
            assert(c.insert(spec_key(spec), value) == entries_after(c, "lb_services"@, t));
        }
    }
}

/// One change leaves what it says where it worked, and nothing elsewhere.
proof fn lemma_one_write<K: Kernel>(
    k: &K,
    write: WriteView,
    t: Seq<Attempt>,
    w: Result<(), ErrorView>,
)
    requires
        amended_writes_run(k, seq![write], t, w),
    ensures
        forall|d: Entries, map: Seq<char>| #[trigger]
            entries_after(d, map, t) == if w is Ok {
                changed(d, map, write)
            } else {
                d
            },
{
    let one = seq![write];
    let stop = match w {
        Ok(_) => Ok::<(), (int, ErrorView)>(()),
        Err(e) => {
            let (n, f) = choose|n: int, f: ErrorView|
                #[trigger] crate::daemon::kernel::all_written(k, one, t, Err((n, f))) && e
                    == f.amended(crate::daemon::kernel::write_map(one[n]));
            Err((n, f))
        },
    };
    assert forall|d: Entries, map: Seq<char>| #[trigger]
        entries_after(d, map, t) == if w is Ok {
            changed(d, map, write)
        } else {
            d
        } by {
        all_written_entries(k, one, t, stop, d, map);
        reveal_with_fuel(all_changed, 2);
        assert(one.drop_last() =~= Seq::empty());
        assert(one.take(0) =~= Seq::empty());
    }
}

/// The command to remove a service takes away the entry of its address, port and
/// protocol, and nothing else.
pub proof fn service_command_takes_the_key<H: Host>(
    h: &H,
    iface: Seq<char>,
    addr: Seq<char>,
    port: u16,
    word: Seq<char>,
    tcp: bool,
    known: Option<u32>,
    t: Seq<Attempt>,
    r: Result<ResponseView, Seq<char>>,
    c: Entries,
)
    requires
        tcp == (word == "tcp"@),
        answered(
            h,
            (CommandView::ServiceRm {
                iface,
                addr,
                port,
                proto: word,
            }),
            known,
            t,
            r,
        ),
    ensures
        r is Ok ==> parsed_ipv4(addr) is Ok && exists|key: Seq<u8>|
            {
                &&& #[trigger] service_entry_key(key, parsed_ipv4(addr)->Ok_0.addr, port, tcp)
                &&& entries_after(c, "lb_services"@, t) == c.remove(key)
            },
        r is Err ==> unchanged(t),
        forall|map: Seq<char>| map != "lb_services"@ ==> #[trigger] kept(map, t),
{
    if parsed_ipv4(addr) is Ok {
        let (spec, w) = choose|spec: ServiceSpec, w: Result<(), ErrorView>|
            {
                &&& crate::daemon::api::service_matches(spec, addr, port, word, 0)
                &&& #[trigger] amended_writes_run(h, seq![service_delete_write(spec)], t, w)
                &&& r is Ok <==> w is Ok
            };
        lemma_service_key(spec);
        lemma_one_write(h, service_delete_write(spec), t, w);
        if w is Ok {
            assert(service_entry_key(spec_key(spec), parsed_ipv4(addr)->Ok_0.addr, port, tcp));
        }
    }
}

// ---- VLAN rules by number ----

proof fn lemma_vlan_entries(records: Seq<Record>, i: int)
    requires
        forall|j: int| 0 <= j < records.len() ==> (#[trigger] records[j]).value is Some,
        0 <= i < records.len(),
    ensures
        vlan_entries(records).len() == records.len(),
        vlan_entries(records)[i] == crate::daemon::maps::vlan_entry(
            i,
            records[i].key@,
            records[i].value->0@,
        ),
    decreases records.len(),
{
    let rest = records.drop_last();
    assert forall|j: int| 0 <= j < rest.len() implies (#[trigger] rest[j]).value is Some by {
        assert(rest[j] == records[j]);
    }
    assert(records[records.len() - 1].value is Some);
    if rest.len() == 0 {
        assert(vlan_entries(rest) =~= Seq::empty());
    } else if i < rest.len() {
        lemma_vlan_entries(rest, i);
        assert(rest[i] == records[i]);
    } else {
        lemma_vlan_entries(rest, 0);
    }
}

/// The command to delete a VLAN rule takes away the key that stands at its
/// number in the list, and nothing else.
pub proof fn vlan_del_command_takes_the_numbered_key<H: Host>(
    h: &H,
    iface: Seq<char>,
    id: usize,
    known: Option<u32>,
    t: Seq<Attempt>,
    r: Result<ResponseView, Seq<char>>,
    c: Entries,
    records: Seq<Record>,
)
    requires
        answered(h, CommandView::AclVlanDel { iface, id }, known, t, r),
        forall|v: Result<Seq<Record>, ErrorView>|
            #[trigger] read(h, "vlan_acl"@, v) ==> v == Ok::<Seq<Record>, ErrorView>(records),
        forall|j: int|
            0 <= j < records.len() ==> (#[trigger] records[j]).value is Some
                && records[j].key@.len() == 8 && (forall|i: int|
                4 <= i < 8 ==> #[trigger] records[j].key@[i] == 0),
    ensures
        r is Ok ==> id < records.len() && entries_after(c, "vlan_acl"@, t) == c.remove(
            records[id as int].key@,
        ),
        r is Err ==> unchanged(t),
        id >= records.len() ==> r is Err && t.len() == 0,
        forall|map: Seq<char>| map != "vlan_acl"@ ==> #[trigger] kept(map, t),
{
    let w = choose|w: Result<(), ErrorView>|
        {
            &&& #[trigger] vlan_deleted(h, id as int, t, w)
            &&& r is Ok <==> w is Ok
        };
    deleting_a_vlan_rule_takes_one_key(h, id as int, t, w, c);
    if records.len() == 0 {
        assert(vlan_entries(records) =~= Seq::empty());
    } else {
        lemma_vlan_entries(records, 0);
    }
    if id < records.len() {
        lemma_vlan_entries(records, id as int);
        let k = records[id as int].key@;
        let e = vlan_entries(records)[id as int];
        lemma_le16_bytes(k);
        lemma_le16_bytes(k.skip(2));
        assert(vlan_key(e.outer_vlan, e.inner_vlan) =~= k);
    }
    assert forall|v: Seq<VlanEntryView>| #[trigger] vlan_listed(h, Ok(v)) implies v
        == vlan_entries(records) by {
        let rr = choose|rr: Result<Seq<Record>, ErrorView>|
            {
                &&& #[trigger] read(h, VLAN_ACL_MAP@, rr)
                &&& Ok::<Seq<VlanEntryView>, ErrorView>(v) == match rr {
                    Ok(x) => Ok::<Seq<VlanEntryView>, ErrorView>(vlan_entries(x)),
                    Err(e) => Err(e),
                }
            };
        assert(rr == Ok::<Seq<Record>, ErrorView>(records));
    }
    assert forall|e: ErrorView| !(#[trigger] vlan_listed(h, Err(e))) by {
        if vlan_listed(h, Err(e)) {
            let rr = choose|rr: Result<Seq<Record>, ErrorView>|
                {
                    &&& #[trigger] read(h, VLAN_ACL_MAP@, rr)
                    &&& Err::<Seq<VlanEntryView>, ErrorView>(e) == match rr {
                        Ok(x) => Ok::<Seq<VlanEntryView>, ErrorView>(vlan_entries(x)),
                        Err(e) => Err(e),
                    }
                };
            assert(rr == Ok::<Seq<Record>, ErrorView>(records));
        }
    }
}

// ---- Backends ----

/// The number that four bytes write, the low one first.
pub open spec fn number4(v: Seq<u8>, at: int) -> int {
    v[at] + 256 * v[at + 1] + 65536 * v[at + 2] + 16777216 * v[at + 3]
}

/// The bytes are those of a backend: its address behind ten zeros and two bytes
/// of ones, its port, 4 and 6, its interface, the weight 1, its group, and zeros.
pub open spec fn backend_record(
    value: Seq<u8>,
    addr: Seq<u8>,
    port: u16,
    ifindex: u32,
    group: u32,
) -> bool {
    &&& value.len() == 48
    &&& forall|i: int| 0 <= i < 10 ==> #[trigger] value[i] == 0
    &&& value[10] == 255 && value[11] == 255
    &&& forall|i: int| 0 <= i < 4 ==> #[trigger] addr[i] == value[12 + i]
    &&& value[16] + 256 * value[17] == port
    &&& value[18] == 4 && value[19] == 6
    &&& number4(value, 20) == ifindex
    &&& number4(value, 24) == 1
    &&& number4(value, 28) == group
    &&& forall|i: int| 32 <= i < 48 ==> #[trigger] value[i] == 0
}

proof fn lemma_backend_record(spec: BackendSpec, ifindex: u32)
    ensures
        backend_record(
            spec.backend(ifindex).bytes(),
            spec.ip@.addr,
            spec.port,
            ifindex,
            spec.group,
        ),
{
    let b = spec.backend(ifindex);
    let v = b.bytes();
    lemma_number4(ifindex);
    lemma_number4(1);
    lemma_number4(spec.group);
    assert(spec.ip@.addr.len() == 4);
    let x = le32(ifindex);
    let y = le32(1);
    let z = le32(spec.group);
    assert(v[20] == x[0] && v[21] == x[1] && v[22] == x[2] && v[23] == x[3]);
    assert(v[24] == y[0] && v[25] == y[1] && v[26] == y[2] && v[27] == y[3]);
    assert(v[28] == z[0] && v[29] == z[1] && v[30] == z[2] && v[31] == z[3]);
    assert forall|i: int| 0 <= i < 4 implies #[trigger] spec.ip@.addr[i] == v[12 + i] by {}
}

/// The command to add a backend writes its record under its number in
/// `lb_backends`, its interface under the same number in `lb_devmap`, and the
/// next number in `lb_meta`.
pub proof fn backend_command_sets_the_slot<H: Host>(
    h: &H,
    iface: Seq<char>,
    ip: Seq<char>,
    port: u16,
    dev: Seq<char>,
    group: u32,
    known: Option<u32>,
    t: Seq<Attempt>,
    r: Result<ResponseView, Seq<char>>,
    c: Entries,
)
    requires
        answered(
            h,
            (CommandView::BackendAdd { iface, ip, port, dev, group: Some(group) }),
            known,
            t,
            r,
        ),
    ensures
        r is Ok ==> parsed_ipv4(ip) is Ok && exists|id: u32, ifindex: u32, value: Seq<u8>|
            {
                &&& r == Ok::<ResponseView, Seq<char>>(
                    ResponseView::Success("Added backend id="@ + decimal(id as int)),
                )
                &&& #[trigger] interface_resolved(h, dev, Ok(ifindex))
                &&& #[trigger] backend_record(
                    value,
                    parsed_ipv4(ip)->Ok_0.addr,
                    port,
                    ifindex,
                    group,
                )
                &&& entries_after(c, "lb_backends"@, t) == c.insert(#[trigger] le32(id), value)
                &&& entries_after(c, "lb_devmap"@, t) == c.insert(
                    le32(id),
                    le32(ifindex) + le32(0),
                )
                &&& entries_after(c, "lb_meta"@, t) == c.insert(
                    le32(0),
                    le32((id + 1) as u32) + le32(0),
                )
            },
        forall|map: Seq<char>|
            map != "lb_backends"@ && map != "lb_devmap"@ && map != "lb_meta"@ ==> #[trigger] kept(
                map,
                t,
            ),
        (forall|n: u32| !#[trigger] interface_resolved(h, dev, Ok(n))) ==> r is Err && t.len() == 0,
{
    if parsed_ipv4(ip) is Ok {
        let (spec, w) = choose|spec: BackendSpec, w: Result<u32, ErrorView>|
            {
                &&& crate::daemon::api::spec_matches(spec, ip, port, dev, Some(group))
                &&& #[trigger] crate::daemon::backend::backend_added(h, spec, t, w)
                &&& r == match w {
                    Ok(id) => Ok::<ResponseView, Seq<char>>(
                        ResponseView::Success("Added backend id="@ + decimal(id as int)),
                    ),
                    Err(_) => Err("Failed to add backend"@),
                }
            };
        adding_a_backend_sets_its_slot(h, spec, t, w, c);
        if let Ok(id) = w {
            let ifindex = choose|ifindex: u32|
                {
                    &&& #[trigger] interface_resolved(h, spec.dev@, Ok(ifindex))
                    &&& entries_after(c, LB_BACKENDS_MAP@, t) == c.insert(
                        le32(id),
                        spec.backend(ifindex).bytes(),
                    )
                    &&& entries_after(c, LB_DEV_MAP@, t) == c.insert(
                        le32(id),
                        le32(ifindex) + le32(0),
                    )
                    &&& entries_after(c, LB_META_MAP@, t) == c.insert(
                        le32(0),
                        le32((id + 1) as u32) + le32(0),
                    )
                };
            lemma_backend_record(spec, ifindex);
            let value = spec.backend(ifindex).bytes();
            assert(backend_record(value, parsed_ipv4(ip)->Ok_0.addr, port, ifindex, group));
            assert(interface_resolved(h, dev, Ok(ifindex)));
        }
    }
}

/// The command to delete a backend leaves 48 zeros in its slot, takes its
/// interface away, and changes no other map and no other slot.
pub proof fn backend_command_clears_the_slot<H: Host>(
    h: &H,
    iface: Seq<char>,
    id: u32,
    known: Option<u32>,
    t: Seq<Attempt>,
    r: Result<ResponseView, Seq<char>>,
    c: Entries,
)
    requires
        answered(h, CommandView::BackendRm { iface, id }, known, t, r),
    ensures
        r is Ok ==> entries_after(c, "lb_backends"@, t) == c.insert(
            le32(id),
            Seq::new(48, |i: int| 0u8),
        ) && entries_after(c, "lb_devmap"@, t) == c.remove(le32(id)),
        forall|map: Seq<char>|
            map != "lb_backends"@ && map != "lb_devmap"@ ==> #[trigger] kept(map, t),
{
    let w = choose|w: Result<(), ErrorView>|
        {
            &&& #[trigger] crate::daemon::backend::backend_deleted(h, id, t, w)
            &&& r is Ok <==> w is Ok
        };
    deleting_a_backend_clears_its_slot(h, id, t, w, c);
    assert(no_backend().bytes() =~= Seq::new(48, |i: int| 0u8));
}

// ---- Counts ----

/// No map of the name was found.
pub open spec fn is_missing<K: Kernel>(k: &K, map: Seq<char>) -> bool {
    exists|m: Seq<char>| #[trigger] opened(k, map, Err(ErrorView::NotFound(m)))
}

/// The map of the name was opened, and a walk over its keys met `n`.
pub open spec fn has_keys_of<K: Kernel>(k: &K, map: Seq<char>, n: usize) -> bool {
    exists|id: u32, keys: Vec<Vec<u8>>|
        {
            &&& #[trigger] opened(k, map, Ok(id))
            &&& #[trigger] call_ensures(K::keys, (k, id), keys)
            &&& n == keys@.len() as usize
        }
}

proof fn lemma_counts<H: Host>(h: &H, map: Seq<char>, r: Result<ResponseView, Seq<char>>)
    requires
        crate::daemon::api::count_answered(h, map, r),
        r is Ok,
    ensures
        counts_keys(h, map, r->Ok_0),
{
    let n = choose|n: Result<usize, ErrorView>|
        {
            &&& #[trigger] keys_counted(h, map, n)
            &&& r == match n {
                Ok(c) => Ok::<ResponseView, Seq<char>>(ResponseView::CountResult(c)),
                Err(e) => crate::daemon::api::failed(e),
            }
        };
    let id = choose|id: Result<u32, ErrorView>|
        {
            &&& #[trigger] opened(h, map, id)
            &&& match id {
                Ok(m) => keys_counted_in(h, m, n),
                Err(ErrorView::NotFound(_)) => n == Ok::<usize, ErrorView>(0),
                Err(e) => n == Err::<usize, ErrorView>(e),
            }
        };
    match id {
        Ok(m) => {
            let keys = choose|keys: Vec<Vec<u8>>|
                #[trigger] call_ensures(H::keys, (h, m), keys) && n == Ok::<usize, ErrorView>(
                    keys@.len() as usize,
                );
            assert(opened(h, map, Ok(m)) && call_ensures(H::keys, (h, m), keys));
            assert(has_keys_of(h, map, n->Ok_0));
        },
        Err(e) => match e {
            ErrorView::NotFound(m) => {
                assert(opened(h, map, Err(ErrorView::NotFound(m))));
            },
            _ => {},
        },
    }
}

/// The answer is the number of keys of the map, 0 where there is no such map.
pub open spec fn counts_keys<K: Kernel>(k: &K, map: Seq<char>, r: ResponseView) -> bool {
    match r {
        ResponseView::CountResult(n) => n == 0 && is_missing(k, map) || has_keys_of(k, map, n),
        _ => false,
    }
}

/// The commands that ask how many connections are tracked, and how many buckets
/// there are, answer with the number of keys of their map, and with 0 where
/// there is no such map.
pub proof fn counts_are_numbers_of_keys<H: Host>(
    h: &H,
    iface: Seq<char>,
    known: Option<u32>,
    t: Seq<Attempt>,
    r: Result<ResponseView, Seq<char>>,
)
    requires
        r is Ok,
    ensures
        answered(h, CommandView::ConntrackShow { iface }, known, t, r) ==> t.len() == 0
            && counts_keys(h, "conntrack"@, r->Ok_0),
        answered(h, CommandView::RateLimitShow { iface }, known, t, r) ==> t.len() == 0
            && counts_keys(h, "rate_limit"@, r->Ok_0),
{
    if answered(h, CommandView::ConntrackShow { iface }, known, t, r) {
        lemma_counts(h, "conntrack"@, r);
    }
    if answered(h, CommandView::RateLimitShow { iface }, known, t, r) {
        lemma_counts(h, "rate_limit"@, r);
    }
}

/// The command to reload applies the configuration in the file that it names, or
/// in `config2.yml`, and says whether that worked. Where the file cannot be
/// loaded nothing is changed.
pub proof fn reload_command_applies_the_named_file<H: Host>(
    h: &H,
    path: Option<Seq<char>>,
    known: Option<u32>,
    t: Seq<Attempt>,
    r: Result<ResponseView, Seq<char>>,
    file: Seq<char>,
    reply: Result<Config, MapError>,
)
    requires
        answered(h, CommandView::ConfigReload { path }, known, t, r),
        path matches Some(p) ==> file == p,
        path is None ==> file == "config2.yml"@,
        forall|p: String, found: Result<Config, MapError>| #[trigger]
            call_ensures(H::load_config, (h, p), found) && p@ == file ==> found == reply,
    ensures
        reply matches Ok(config) ==> {
            ||| r is Ok && applied(h, config, t, Ok(()))
            ||| r is Err && exists|e: ErrorView| #[trigger] applied(h, config, t, Err(e))
        },
        reply is Err ==> r is Err && t.len() == 0,
{
    let w = choose|w: Result<(), ErrorView>|
        {
            &&& #[trigger] reloaded(h, file, t, w)
            &&& r is Ok <==> w is Ok
        };
    let (p, found) = choose|p: String, found: Result<Config, MapError>|
        {
            &&& p@ == file
            &&& #[trigger] call_ensures(H::load_config, (h, p), found)
            &&& match found {
                Err(e) => w == Err::<(), ErrorView>(e@) && t.len() == 0,
                Ok(config) => applied(h, config, t, w),
            }
        };
    assert(found == reply);
    if let Ok(config) = reply {
        assert(applied(h, config, t, w));
        match w {
            Ok(u) => {
                assert(applied(h, config, t, Ok(())));
            },
            Err(e) => {
                assert(applied(h, config, t, Err(e)));
            },
        }
    }
}

/// A command without a group is answered as one with the group 0.
pub proof fn no_group_is_the_group_zero<H: Host>(
    h: &H,
    iface: Seq<char>,
    addr: Seq<char>,
    port: u16,
    word: Seq<char>,
    known: Option<u32>,
    t: Seq<Attempt>,
    r: Result<ResponseView, Seq<char>>,
)
    ensures
        answered(
            h,
            (CommandView::ServiceAdd { iface, addr, port, proto: word, group: None }),
            known,
            t,
            r,
        ) <==> answered(
            h,
            (CommandView::ServiceAdd { iface, addr, port, proto: word, group: Some(0) }),
            known,
            t,
            r,
        ),
        answered(
            h,
            (CommandView::BackendAdd { iface, ip: addr, port, dev: word, group: None }),
            known,
            t,
            r,
        ) <==> answered(
            h,
            (CommandView::BackendAdd { iface, ip: addr, port, dev: word, group: Some(0) }),
            known,
            t,
            r,
        ),
{
    if parsed_ipv4(addr) is Ok {
        assert forall|spec: BackendSpec|
            crate::daemon::api::spec_matches(spec, addr, port, word, None)
                == #[trigger] crate::daemon::api::spec_matches(
                spec,
                addr,
                port,
                word,
                Some(0),
            ) by {}
    }
}

} // verus!
