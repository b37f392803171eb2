//! Properties that span modules.
use vstd::prelude::*;

use crate::acl_key::{
    address_part, bad_octet, destination_bytes, expanded, group_bytes, groups, key_port,
    masked_byte, network, parsed_acl_addr, zeros, AddrView, PortSpec, RuleView,
};
use crate::bytes::{
    from_be16, from_le16, from_le32, from_le64, le16, le32, le64, lemma_le16_roundtrip,
    lemma_le32_roundtrip, lemma_le64_roundtrip,
};
use crate::ctl::client::{filled, hex_groups, ip_bytes, octets};
use crate::daemon::kernel::ErrorView;
use crate::daemon::maps::{
    acl_entry, action_name, entry_key, key_fields, mask_in, vlan_entry, vlan_key, vlan_value,
    KeyView, VlanEntryView,
};
use crate::daemon::monitoring::{event_in, event_numbers_are_inverse};
use crate::display::{dotted, group_texts, ip_text};
use crate::maps::{AclAction, Event, FlowKey, L4AclKey, VlanAclKey, AF_INET, AF_INET6};
use crate::packet::be16_at;
use crate::text::{
    decimal, find, has, hex, join, join_then_split, lemma_digits_are_a_word, lemma_digits_only,
    lemma_find, number_roundtrip, parse_number, split, starts, white,
};
use crate::xdp::{is_probe, is_vlan_key, keep_bytes, probe_prefix, probe_source_bytes};

verus! {

// ---- Addresses as texts ----

/// The four numbers of a dotted address.
spec fn dotted_parts(addr: Seq<u8>) -> Seq<Seq<char>> {
    seq![
        decimal(addr[12] as int),
        decimal(addr[13] as int),
        decimal(addr[14] as int),
        decimal(addr[15] as int),
    ]
}

proof fn lemma_dotted_is_joined(addr: Seq<u8>)
    ensures
        dotted(addr) == join(dotted_parts(addr), seq!['.']),
{
    reveal_strlit(".");
    assert("."@ =~= seq!['.']);
    let p = dotted_parts(addr);
    assert(p.drop_last() =~= seq![p[0], p[1], p[2]]);
    assert(p.drop_last().drop_last() =~= seq![p[0], p[1]]);
    assert(p.drop_last().drop_last().drop_last() =~= seq![p[0]]);
    assert(join(seq![p[0]], seq!['.']) == p[0]);
    assert(join(seq![p[0], p[1]], seq!['.']) == p[0] + seq!['.'] + p[1]);
    assert(join(seq![p[0], p[1], p[2]], seq!['.']) == p[0] + seq!['.'] + p[1] + seq!['.'] + p[2]);
}

/// No part of a join holds a character, nor does the separator.
pub proof fn lemma_join_without(parts: Seq<Seq<char>>, sep: char, c: char)
    requires
        sep != c,
        forall|i: int, j: int|
            0 <= i < parts.len() && 0 <= j < parts[i].len() ==> parts[i][j] != c,
    ensures
        forall|i: int|
            0 <= i < join(parts, seq![sep]).len() ==> #[trigger] join(parts, seq![sep])[i] != c,
    decreases parts.len(),
{
    if parts.len() > 1 {
        let rest = parts.drop_last();
        assert forall|i: int, j: int|
            0 <= i < rest.len() && 0 <= j < rest[i].len() implies rest[i][j] != c by {
            assert(rest[i] == parts[i]);
        }
        lemma_join_without(rest, sep, c);
        let head = join(rest, seq![sep]);
        let last = parts.last();
        assert(last == parts[parts.len() - 1]);
        let all = head + seq![sep] + last;
        assert forall|i: int| 0 <= i < all.len() implies #[trigger] all[i] != c by {
            if i < head.len() {
                assert(all[i] == head[i]);
            } else if i == head.len() {
                assert(all[i] == sep);
            } else {
                assert(all[i] == last[i - head.len() - 1]);
            }
        }
    } else if parts.len() == 1 {
        assert(join(parts, seq![sep]) == parts[0]);
    }
}

proof fn lemma_has_not(s: Seq<char>, c: char)
    requires
        forall|i: int| 0 <= i < s.len() ==> s[i] != c,
    ensures
        find(s, c) is None,
{
    lemma_find(s, c);
}

proof fn lemma_has(s: Seq<char>, c: char, i: int)
    requires
        0 <= i < s.len(),
        s[i] == c,
    ensures
        find(s, c) is Some,
{
    lemma_find(s, c);
}

proof fn lemma_dotted(addr: Seq<u8>)
    requires
        addr.len() == 16,
    ensures
        split(dotted(addr), '.') == dotted_parts(addr),
        find(dotted(addr), '/') is None,
        find(dotted(addr), ':') is None,
        forall|i: int|
            0 <= i < 4 ==> parse_number(#[trigger] dotted_parts(addr)[i], 10, 255) == Some(
                addr[12 + i] as int,
            ),
{
    let p = dotted_parts(addr);
    lemma_dotted_is_joined(addr);
    assert forall|i: int| 0 <= i < 4 implies parse_number(#[trigger] p[i], 10, 255) == Some(
        addr[12 + i] as int,
    ) by {
        assert(p[i] == decimal(addr[12 + i] as int));
        number_roundtrip(addr[12 + i] as int, 10, 255);
    }
    assert forall|i: int, j: int| 0 <= i < p.len() && 0 <= j < p[i].len() implies p[i][j] != '.'
        && p[i][j] != '/' && p[i][j] != ':' by {
        assert(p[i] == decimal(addr[12 + i] as int));
        lemma_digits_only(addr[12 + i] as int, 10, '.');
        lemma_digits_only(addr[12 + i] as int, 10, '/');
        lemma_digits_only(addr[12 + i] as int, 10, ':');
    }
    join_then_split(p, '.');
    lemma_join_without(p, '.', '/');
    lemma_join_without(p, '.', ':');
    lemma_has_not(dotted(addr), '/');
    lemma_has_not(dotted(addr), ':');
}

/// An IPv4 address that is shown is read back.
pub proof fn shown_ipv4_is_read_back(addr: Seq<u8>)
    requires
        addr.len() == 16,
    ensures
        parsed_acl_addr(dotted(addr)) == Ok::<AddrView, Seq<char>>(
            AddrView { v6: false, addr: addr.subrange(12, 16), prefix: None },
        ),
{
    let s = dotted(addr);
    let p = dotted_parts(addr);
    lemma_dotted(addr);
    assert(address_part(s) == s);
    assert(bad_octet(p, 0) is None);
    assert(bad_octet(p, 1) is None);
    assert(bad_octet(p, 2) is None);
    assert(bad_octet(p, 3) is None);
    assert(bad_octet(p, 4) is None);
    assert(Seq::new(4, |i: int| parse_number(p[i], 10, 255)->0 as u8) =~= addr.subrange(12, 16));
}

/// The groups of an address.
spec fn group_values(addr: Seq<u8>, n: nat) -> Seq<u16> {
    Seq::new(n, |i: int| be16_at(addr, 2 * i))
}

proof fn lemma_groups(addr: Seq<u8>, n: nat, s: Seq<char>)
    ensures
        groups(group_texts(addr, n), s) == Ok::<Seq<Option<u16>>, Seq<char>>(
            Seq::new(n, |i: int| Some(be16_at(addr, 2 * i))),
        ),
    decreases n,
{
    let t = group_texts(addr, n);
    if n == 0 {
        assert(t =~= Seq::empty());
        assert(Seq::new(n, |i: int| Some(be16_at(addr, 2 * i))) =~= Seq::empty());
    } else {
        let m = (n - 1) as nat;
        lemma_groups(addr, m, s);
        assert(t.drop_last() =~= group_texts(addr, m));
        let v = be16_at(addr, 2 * m as int);
        assert(t.last() == hex(v as int));
        lemma_digits_only(v as int, 16, ':');
        number_roundtrip(v as int, 16, 65535);
        assert(Seq::new(n, |i: int| Some(be16_at(addr, 2 * i))) =~= Seq::new(
            m,
            |i: int| Some(be16_at(addr, 2 * i)),
        ).push(Some(v)));
    }
}

proof fn lemma_expanded(addr: Seq<u8>, n: nat, total: int)
    ensures
        expanded(Seq::new(n, |i: int| Some(be16_at(addr, 2 * i))), total) == group_values(addr, n),
    decreases n,
{
    let g = Seq::new(n, |i: int| Some(be16_at(addr, 2 * i)));
    if n == 0 {
        assert(g =~= Seq::empty());
        assert(group_values(addr, n) =~= Seq::empty());
    } else {
        let m = (n - 1) as nat;
        lemma_expanded(addr, m, total);
        assert(g.drop_last() =~= Seq::new(m, |i: int| Some(be16_at(addr, 2 * i))));
        assert(group_values(addr, n) =~= group_values(addr, m).push(be16_at(addr, 2 * m as int)));
    }
}

proof fn lemma_hex_groups(addr: Seq<u8>, n: nat)
    ensures
        hex_groups(group_texts(addr, n)) == group_values(addr, n),
    decreases n,
{
    let t = group_texts(addr, n);
    if n == 0 {
        assert(t =~= Seq::empty());
        assert(group_values(addr, n) =~= Seq::empty());
    } else {
        let m = (n - 1) as nat;
        lemma_hex_groups(addr, m);
        assert(t.drop_last() =~= group_texts(addr, m));
        let v = be16_at(addr, 2 * m as int);
        number_roundtrip(v as int, 16, 65535);
        assert(group_values(addr, n) =~= group_values(addr, m).push(v));
    }
}

proof fn lemma_group_bytes(addr: Seq<u8>)
    requires
        addr.len() == 16,
    ensures
        group_bytes(group_values(addr, 8)) == addr,
{
    let g = group_values(addr, 8);
    assert forall|i: int| 0 <= i < 16 implies group_bytes(g)[i] == addr[i] by {
        let k = i / 2;
        assert(g[k] == from_be16(addr.skip(2 * k)));
        assert(addr.skip(2 * k)[0] == addr[2 * k]);
        assert(addr.skip(2 * k)[1] == addr[2 * k + 1]);
    }
    assert(group_bytes(g) =~= addr);
}

proof fn lemma_group_split(addr: Seq<u8>)
    ensures
        split(ip_text(addr, 6), ':') == group_texts(addr, 8),
        find(ip_text(addr, 6), '.') is None,
        find(ip_text(addr, 6), '/') is None,
{
    reveal_strlit(":");
    assert(":"@ =~= seq![':']);
    let t = group_texts(addr, 8);
    assert forall|i: int, j: int| 0 <= i < t.len() && 0 <= j < t[i].len() implies t[i][j] != ':'
        && t[i][j] != '.' && t[i][j] != '/' by {
        let v = be16_at(addr, 2 * i);
        assert(t[i] == hex(v as int));
        lemma_digits_only(v as int, 16, ':');
        lemma_digits_only(v as int, 16, '.');
        lemma_digits_only(v as int, 16, '/');
    }
    join_then_split(t, ':');
    lemma_join_without(t, ':', '.');
    lemma_join_without(t, ':', '/');
    lemma_has_not(ip_text(addr, 6), '.');
    lemma_has_not(ip_text(addr, 6), '/');
}

proof fn lemma_has_colon(addr: Seq<u8>)
    ensures
        has(ip_text(addr, 6), ':'),
{
    let t = group_texts(addr, 8);
    reveal_strlit(":");
    assert(":"@ =~= seq![':']);
    let head = join(t.drop_last(), ":"@);
    assert(ip_text(addr, 6) == head + ":"@ + t.last());
    lemma_has(ip_text(addr, 6), ':', head.len() as int);
}

/// An IPv6 address that is shown is read back.
pub proof fn shown_ipv6_is_read_back(addr: Seq<u8>)
    requires
        addr.len() == 16,
    ensures
        parsed_acl_addr(ip_text(addr, 6)) == Ok::<AddrView, Seq<char>>(
            AddrView { v6: true, addr, prefix: None },
        ),
{
    let s = ip_text(addr, 6);
    lemma_group_split(addr);
    lemma_has_colon(addr);
    assert(address_part(s) == s);
    lemma_groups(addr, 8, s);
    let g = Seq::new(8, |i: int| Some(be16_at(addr, 2 * i)));
    lemma_expanded(addr, 8, g.len() as int);
    lemma_group_bytes(addr);
}

proof fn lemma_octets(addr: Seq<u8>)
    requires
        addr.len() == 16,
    ensures
        octets(dotted_parts(addr)) == addr.subrange(12, 16),
{
    let p = dotted_parts(addr);
    lemma_dotted(addr);
    let p3 = p.drop_last();
    let p2 = p3.drop_last();
    let p1 = p2.drop_last();
    assert(p1.drop_last() =~= Seq::empty());
    assert(p.last() == p[3] && p3.last() == p[2] && p2.last() == p[1] && p1.last() == p[0]);
    assert(octets(p1.drop_last()) =~= Seq::empty());
    assert(octets(p1) =~= seq![addr[12]]);
    assert(octets(p2) =~= seq![addr[12], addr[13]]);
    assert(octets(p3) =~= seq![addr[12], addr[13], addr[14]]);
    assert(octets(p) =~= addr.subrange(12, 16));
}

/// Joined parts hold no white space where neither they nor the separator do.
proof fn lemma_join_word(parts: Seq<Seq<char>>, sep: char)
    requires
        parts.len() > 0,
        !white(sep),
        forall|i: int|
            0 <= i < parts.len() ==> (#[trigger] parts[i]).len() > 0 && no_white(parts[i]),
    ensures
        join(parts, seq![sep]).len() > 0,
        no_white(join(parts, seq![sep])),
    decreases parts.len(),
{
    if parts.len() == 1 {
        assert(join(parts, seq![sep]) == parts[0]);
    } else {
        let rest = parts.drop_last();
        assert forall|i: int| 0 <= i < rest.len() implies (#[trigger] rest[i]).len() > 0
            && no_white(rest[i]) by {
            assert(rest[i] == parts[i]);
        }
        lemma_join_word(rest, sep);
        let head = join(rest, seq![sep]);
        let last = parts.last();
        assert(last == parts[parts.len() - 1]);
        let all = head + seq![sep] + last;
        assert forall|i: int| 0 <= i < all.len() implies !white(#[trigger] all[i]) by {
            if i < head.len() {
                assert(all[i] == head[i]);
            } else if i > head.len() {
                assert(all[i] == last[i - head.len() - 1]);
            }
        }
    }
}

spec fn no_white(s: Seq<char>) -> bool {
    forall|i: int| 0 <= i < s.len() ==> !white(#[trigger] s[i])
}

/// A shown address holds no white space.
pub proof fn lemma_shown_address_is_a_word(addr: Seq<u8>, family: u8)
    requires
        addr.len() == 16,
    ensures
        ip_text(addr, family).len() > 0,
        forall|i: int|
            0 <= i < ip_text(addr, family).len() ==> !white(#[trigger] ip_text(addr, family)[i]),
{
    if family == 4 {
        lemma_dotted_is_joined(addr);
        let p = dotted_parts(addr);
        assert forall|i: int| 0 <= i < p.len() implies (#[trigger] p[i]).len() > 0 && no_white(
            p[i],
        ) by {
            assert(p[i] == decimal(addr[12 + i] as int));
            lemma_digits_are_a_word(addr[12 + i] as int, 10);
        }
        lemma_join_word(p, '.');
    } else {
        let p = group_texts(addr, 8);
        assert forall|i: int| 0 <= i < p.len() implies (#[trigger] p[i]).len() > 0 && no_white(
            p[i],
        ) by {
            lemma_digits_are_a_word(be16_at(addr, 2 * i) as int, 16);
        }
        reveal_strlit(":");
        assert(":"@ =~= seq![':']);
        lemma_join_word(p, ':');
    }
}

/// The command-line tool reads an address in a list as the daemon showed it:
/// IPv6 whole, of IPv4 the last four bytes.
pub proof fn tool_reads_shown_address(addr: Seq<u8>)
    requires
        addr.len() == 16,
    ensures
        ip_bytes(ip_text(addr, 4), 4) == zeros(12) + addr.subrange(12, 16),
        ip_bytes(ip_text(addr, 6), 6) == addr,
{
    lemma_dotted(addr);
    lemma_octets(addr);
    lemma_group_split(addr);
    lemma_hex_groups(addr, 8);
    lemma_group_bytes(addr);
    assert(filled(addr) =~= addr);
    reveal_strlit("::ffff:");
    let s = dotted(addr);
    if starts(s, "::ffff:"@) {
        assert(s.take(7)[0] == s[0]);
        lemma_has(s, ':', 0);
    }
}

// ---- Rules in the maps ----

/// An address has the bytes of its family.
pub open spec fn address_fits(a: AddrView) -> bool {
    a.addr.len() == if a.v6 {
        16nat
    } else {
        4
    }
}

proof fn lemma_lpm(a: AddrView)
    requires
        address_fits(a),
    ensures
        a.lpm().len() == 16,
{
}

/// The bytes of a rule's key, field by field.
proof fn lemma_rule_key(rule: RuleView)
    requires
        address_fits(rule.src),
        address_fits(rule.dst),
    ensures
        rule.key().len() == 48,
        key_fields(rule.key()) == (KeyView {
            prefix_len: rule.prefix(),
            family: rule.src.family(),
            src_addr: rule.src.lpm(),
            dst_addr: rule.dst.lpm(),
            ip_proto: rule.proto.number(),
            dst_port: key_port(rule.proto, rule.dport),
            src_port: key_port(rule.proto, rule.sport),
            tcp_flags: 0,
        }),
{
    lemma_lpm(rule.src);
    lemma_lpm(rule.dst);
    let k = rule.key();
    let dport = key_port(rule.proto, rule.dport);
    let sport = key_port(rule.proto, rule.sport);
    lemma_le32_roundtrip(rule.prefix());
    lemma_le16_roundtrip(dport);
    lemma_le16_roundtrip(sport);
    assert(k.subrange(5, 21) =~= rule.src.lpm());
    assert(k.subrange(21, 37) =~= rule.dst.lpm());
    assert(k[0] == le32(rule.prefix())[0] && k[1] == le32(rule.prefix())[1] && k[2] == le32(
        rule.prefix(),
    )[2] && k[3] == le32(rule.prefix())[3]);
    assert(k.skip(38)[0] == le16(dport)[0] && k.skip(38)[1] == le16(dport)[1]);
    assert(k.skip(40)[0] == le16(sport)[0] && k.skip(40)[1] == le16(sport)[1]);
    assert(k[43] == 0 && k[42] == 0);
    assert(0u8 & 0u8 == 0u8) by (bit_vector);
}

/// A rule that was added is listed with its prefix length, family, networks,
/// protocol, ports, action and rate.
pub proof fn added_rule_is_listed(rule: RuleView, id: int)
    requires
        address_fits(rule.src),
        address_fits(rule.dst),
    ensures
        ({
            let e = acl_entry(id, rule.key(), rule.value());
            &&& e.id == id
            &&& e.prefix_len == rule.prefix()
            &&& e.family == rule.src.family()
            &&& e.src_addr == rule.src.lpm()
            &&& e.dst_addr == rule.dst.lpm()
            &&& e.ip_proto == rule.proto.number()
            &&& e.src_port == key_port(rule.proto, rule.sport)
            &&& e.dst_port == key_port(rule.proto, rule.dport)
            &&& e.action == action_name(rule.action)
            &&& e.rule.action == rule.action
            &&& e.rule.rate == rule.rate
        }),
{
    lemma_rule_key(rule);
    let v = rule.value();
    lemma_le32_roundtrip(rule.action.spec_code());
    lemma_le32_roundtrip(rule.rate);
    let a = le32(rule.action.spec_code());
    assert(v[0] == a[0] && v[1] == a[1] && v[2] == a[2] && v[3] == a[3]);
    let r = le32(rule.rate);
    assert(v.skip(4)[0] == r[0] && v.skip(4)[1] == r[1] && v.skip(4)[2] == r[2] && v.skip(4)[3]
        == r[3]);
}

/// Deleting a listed rule deletes the key that adding it wrote.
pub proof fn listed_rule_is_deleted_by_its_key(rule: RuleView, id: int, value: Seq<u8>)
    requires
        address_fits(rule.src),
        address_fits(rule.dst),
    ensures
        entry_key(acl_entry(id, rule.key(), value)) == rule.key(),
{
    lemma_rule_key(rule);
    assert(entry_key(acl_entry(id, rule.key(), value)) =~= rule.key());
}

/// A VLAN rule that was added is listed with its tags, action and rate, and is
/// deleted by the key that adding it wrote.
pub proof fn added_vlan_rule_is_listed(
    outer: u16,
    inner: u16,
    action: AclAction,
    rate: u32,
    id: int,
)
    ensures
        vlan_entry(id, vlan_key(outer, inner), vlan_value(action, rate)) == (VlanEntryView {
            id,
            outer_vlan: outer,
            inner_vlan: inner,
            action: action_name(action),
            rate,
        }),
{
    let k = vlan_key(outer, inner);
    let v = vlan_value(action, rate);
    lemma_le16_roundtrip(outer);
    lemma_le16_roundtrip(inner);
    lemma_le32_roundtrip(action.spec_code());
    lemma_le32_roundtrip(rate);
    assert(k[0] == le16(outer)[0] && k[1] == le16(outer)[1]);
    assert(k.skip(2)[0] == le16(inner)[0] && k.skip(2)[1] == le16(inner)[1]);
    let a = le32(action.spec_code());
    assert(v[0] == a[0] && v[1] == a[1] && v[2] == a[2] && v[3] == a[3]);
    let r = le32(rate);
    assert(v.skip(4)[0] == r[0] && v.skip(4)[1] == r[1] && v.skip(4)[2] == r[2] && v.skip(4)[3]
        == r[3]);
}

/// The packet program looks a pair of tags up by the key that a rule for them
/// is stored under.
pub proof fn vlan_rule_is_looked_up_by_its_key(key: VlanAclKey, outer: u16, inner: u16)
    requires
        is_vlan_key(key, outer, inner),
    ensures
        key.bytes() == vlan_key(outer, inner),
{
    assert(key.bytes() =~= vlan_key(outer, inner));
}

/// Different pairs of tags have different keys.
pub proof fn vlan_keys_are_distinct(a: (u16, u16), b: (u16, u16))
    requires
        vlan_key(a.0, a.1) == vlan_key(b.0, b.1),
    ensures
        a == b,
{
    added_vlan_rule_is_listed(a.0, a.1, AclAction::Allow, 0, 0);
    added_vlan_rule_is_listed(b.0, b.1, AclAction::Allow, 0, 0);
}

/// The mask that was stored is read back.
pub proof fn stored_mask_is_read_back(mask: u64, value: Vec<u8>)
    requires
        value@ == le64(mask),
    ensures
        mask_in(Some(value)) == Ok::<u64, ErrorView>(mask),
{
    lemma_le64_roundtrip(mask);
}

proof fn lemma_le64_at(s: Seq<u8>, at: int, v: u64)
    requires
        0 <= at,
        at + 8 <= s.len(),
        s.subrange(at, at + 8) == le64(v),
    ensures
        from_le64(s.skip(at)) == v,
{
    lemma_le64_roundtrip(v);
    let t = s.subrange(at, at + 8);
    let u = s.skip(at);
    assert(t[0] == u[0] && t[1] == u[1] && t[2] == u[2] && t[3] == u[3]);
    assert(t.skip(4)[0] == u.skip(4)[0] && t.skip(4)[1] == u.skip(4)[1] && t.skip(4)[2] == u.skip(
        4,
    )[2] && t.skip(4)[3] == u.skip(4)[3]);
}

proof fn lemma_le32_at(s: Seq<u8>, at: int, v: u32)
    requires
        0 <= at,
        at + 4 <= s.len(),
        s.subrange(at, at + 4) == le32(v),
    ensures
        from_le32(s.skip(at)) == v,
{
    lemma_le32_roundtrip(v);
    let t = s.subrange(at, at + 4);
    let u = s.skip(at);
    assert(t[0] == u[0] && t[1] == u[1] && t[2] == u[2] && t[3] == u[3]);
}

proof fn lemma_le16_at(s: Seq<u8>, at: int, v: u16)
    requires
        0 <= at,
        at + 2 <= s.len(),
        s.subrange(at, at + 2) == le16(v),
    ensures
        from_le16(s.skip(at)) == v,
{
    lemma_le16_roundtrip(v);
    let t = s.subrange(at, at + 2);
    let u = s.skip(at);
    assert(t[0] == u[0] && t[1] == u[1]);
}

/// Where each part stands when ten are joined.
proof fn lemma_event_parts(p: Seq<Seq<u8>>, d: Seq<u8>)
    requires
        p.len() == 10,
        p[0].len() == 8 && p[1].len() == 4 && p[2].len() == 4 && p[3].len() == 16,
        p[4].len() == 16 && p[5].len() == 2 && p[6].len() == 2 && p[7].len() == 4,
        p[8].len() == 8 && p[9].len() == 8,
        d == p[0] + p[1] + p[2] + p[3] + p[4] + p[5] + p[6] + p[7] + p[8] + p[9],
    ensures
        d.len() == 72,
        d.subrange(0, 8) == p[0],
        d.subrange(8, 12) == p[1],
        d.subrange(12, 16) == p[2],
        d.subrange(16, 32) == p[3],
        d.subrange(32, 48) == p[4],
        d.subrange(48, 50) == p[5],
        d.subrange(50, 52) == p[6],
        d.subrange(52, 56) == p[7],
        d.subrange(56, 64) == p[8],
        d.subrange(64, 72) == p[9],
{
    let a = p[0] + p[1] + p[2] + p[3] + p[4];
    let b = p[5] + p[6] + p[7] + p[8] + p[9];
    assert(d =~= a + b);
    assert(d.subrange(0, 8) =~= p[0]);
    assert(d.subrange(8, 12) =~= p[1]);
    assert(d.subrange(12, 16) =~= p[2]);
    assert(d.subrange(16, 32) =~= p[3]);
    assert(d.subrange(32, 48) =~= p[4]);
    assert(d.subrange(48, 50) =~= p[5]);
    assert(d.subrange(50, 52) =~= p[6]);
    assert(d.subrange(52, 56) =~= p[7]);
    assert(d.subrange(56, 64) =~= p[8]);
    assert(d.subrange(64, 72) =~= p[9]);
}

/// The monitor reads an event as the packet program wrote it.
pub proof fn published_event_is_read_back(e: Event, pad: Seq<u8>)
    requires
        pad.len() == 2,
    ensures
        e.bytes(pad).len() == 72,
        event_in(e, e.bytes(pad)),
{
    let d = e.bytes(pad);
    let tags = seq![e.flow.family, e.flow.ip_proto] + pad;
    let parts = seq![
        le64(e.ts_ns),
        le32(e.kind.spec_code()),
        le32(e.ifindex),
        e.flow.src_addr@,
        e.flow.dst_addr@,
        le16(e.flow.src_port),
        le16(e.flow.dst_port),
        tags,
        le64(e.aux0),
        le64(e.aux1),
    ];
    lemma_le64_roundtrip(e.ts_ns);
    lemma_le64_roundtrip(e.aux0);
    lemma_le64_roundtrip(e.aux1);
    lemma_le32_roundtrip(e.kind.spec_code());
    lemma_le32_roundtrip(e.ifindex);
    lemma_event_parts(parts, d);
    event_numbers_are_inverse(e.kind, 0);
    lemma_le64_at(d, 0, e.ts_ns);
    assert(d.skip(0) =~= d);
    lemma_le32_at(d, 8, e.kind.spec_code());
    lemma_le32_at(d, 12, e.ifindex);
    lemma_le16_at(d, 48, e.flow.src_port);
    lemma_le16_at(d, 50, e.flow.dst_port);
    assert(d[52] == d.subrange(52, 56)[0]);
    assert(d[53] == d.subrange(52, 56)[1]);
    lemma_le64_at(d, 56, e.aux0);
    lemma_le64_at(d, 64, e.aux1);
}

// ---- Rules and packets ----

/// An IPv4 address in 16 bytes behind zeros, as a parsed packet holds it.
pub open spec fn behind_zeros(addr: Seq<u8>) -> bool {
    addr.len() == 16 && addr.take(12) == zeros(12)
}

/// A port of a packet is one that a rule speaks of.
pub open spec fn port_matches(port: PortSpec, p: u16) -> bool {
    match port {
        PortSpec::Exact(e) => p == e,
        PortSpec::Any => true,
    }
}

/// The ports of a flow are ones that a rule speaks of. A rule with TCP flags is
/// looked for under the ports of the flow alone.
pub open spec fn ports_match(rule: RuleView, flow: FlowKey) -> bool {
    if rule.tcp_flags != 0 {
        flow.dst_port == key_port(rule.proto, rule.dport) && flow.src_port == key_port(
            rule.proto,
            rule.sport,
        )
    } else {
        rule.proto.portless() || (port_matches(rule.dport, flow.dst_port) && port_matches(
            rule.sport,
            flow.src_port,
        ))
    }
}

/// The prefix level at which the packet program tries a rule.
pub open spec fn rule_level(rule: RuleView) -> int {
    if rule.tcp_flags != 0 {
        0
    } else if rule.proto.portless() || rule.dport is Any {
        3
    } else if rule.sport is Any {
        2
    } else {
        1
    }
}

/// The trie matches the key that is looked up with the key of an entry: the
/// entry's prefix is no longer, and all bytes that it counts are the same.
pub open spec fn trie_matches(entry: RuleView, probe: L4AclKey) -> bool {
    let n = entry.prefix() as int / 8;
    &&& entry.prefix() <= probe.prefix_len
    &&& entry.key().subrange(4, 4 + n) == probe.bytes().subrange(4, 4 + n)
}

/// The source of the flow, under the `m`-th mask of its family, is the network
/// of the rule.
pub open spec fn source_under_mask(rule: RuleView, flow: FlowKey, m: int) -> bool {
    keep_bytes(flow.src_addr@, probe_source_bytes(flow.family, m)) == rule.src.lpm()
}

/// The flow is one that a rule speaks of, its source left aside: the destination
/// is that of the rule's key.
pub open spec fn covers_but_source(rule: RuleView, flow: FlowKey) -> bool {
    &&& flow.family == rule.src.family()
    &&& flow.dst_addr@ == rule.dst.lpm()
    &&& flow.ip_proto == rule.proto.number()
    &&& ports_match(rule, flow)
}

/// For every packet whose source lies under one of the program's masks in the
/// network of a rule that covers it, the key that the program looks up at the
/// rule's prefix level matches the rule's entry in the trie. This is so of IPv4
/// and IPv6, of any prefix lengths, and of rules with TCP flags; only a rule
/// with a source port and any destination port is left out: a key of the program
/// holds the source port only together with the destination port. A rule for a
/// whole destination address, or with flags, has the very key that is looked
/// up.
pub proof fn covered_packet_finds_rule(rule: RuleView, flow: FlowKey, m: int, key: L4AclKey)
    requires
        address_fits(rule.src) && address_fits(rule.dst),
        rule.tcp_flags == 0 && rule.sport is Exact && !rule.proto.portless() ==> rule.dport
            is Exact,
        covers_but_source(rule, flow),
        source_under_mask(rule, flow, m),
        is_probe(key, flow, rule_level(rule), m),
    ensures
        trie_matches(rule, key),
        rule.tcp_flags != 0 || destination_bytes(rule.dst) == 4 ==> key.bytes() == rule.key(),
{
    let level = rule_level(rule);
    assert(keep_bytes(flow.dst_addr@, 16) =~= flow.dst_addr@);
    assert(key.dst_port == key_port(rule.proto, rule.dport));
    assert(key.src_port == key_port(rule.proto, rule.sport));
    assert(key.src_addr@ == rule.src.lpm());
    assert(key.dst_addr@ == rule.dst.lpm());
    let a = key.bytes();
    let b = rule.key();
    assert(a.skip(4) =~= b.skip(4));
    assert(rule.prefix() <= probe_prefix(level));
    assert(272 <= rule.prefix() <= 352);
    let n = rule.prefix() as int / 8;
    assert forall|i: int| 4 <= i < 4 + n implies a[i] == b[i] by {
        assert(a.skip(4)[i - 4] == b.skip(4)[i - 4]);
    }
    assert(a.subrange(4, 4 + n) =~= b.subrange(4, 4 + n));
}

/// The flow is one that an IPv4 rule speaks of.
pub open spec fn rule_covers(rule: RuleView, flow: FlowKey) -> bool {
    &&& flow.family == AF_INET
    &&& behind_zeros(flow.src_addr@)
    &&& flow.dst_addr@ == rule.dst.lpm()
    &&& flow.ip_proto == rule.proto.number()
    &&& network(flow.src_addr@.subrange(12, 16), rule.src.bits() as int) == network(
        rule.src.addr,
        rule.src.bits() as int,
    )
    &&& ports_match(rule, flow)
}

/// An IPv4 packet in the source network of a rule lies in it under the mask of
/// the whole bytes that the prefix reaches into, if the bits of the last of
/// them behind the prefix are zero. There are none where the prefix is of whole
/// bytes.
pub proof fn ipv4_source_is_under_a_mask(rule: RuleView, flow: FlowKey)
    requires
        !rule.src.v6,
        address_fits(rule.src),
        rule.src.bits() <= 32,
        rule_covers(rule, flow),
        rule.src.bits() % 8 == 0 || ({
            let last = flow.src_addr@[12 + rule.src.bits() as int / 8];
            masked_byte(last, rule.src.bits() as int % 8) == last
        }),
    ensures
        source_under_mask(rule, flow, (32 - rule.src.bits()) / 8),
        covers_but_source(rule, flow),
{
    let bits = rule.src.bits() as int;
    let m = (32 - bits) / 8;
    let src = flow.src_addr@;
    assert forall|i: int| 0 <= i < 12 implies src[i] == 0 by {
        assert(src.take(12)[i] == src[i]);
    }
    let a = network(src.subrange(12, 16), bits);
    let b = network(rule.src.addr, bits);
    assert forall|i: int| 0 <= i < 16 implies keep_bytes(src, 16 - m)[i] == rule.src.lpm()[i] by {
        if i >= 12 {
            assert(a[i - 12] == b[i - 12]);
            assert(src.subrange(12, 16)[i - 12] == src[i]);
        }
    }
    assert(keep_bytes(src, 16 - m) =~= rule.src.lpm());
}

/// The program's mask for an IPv6 prefix; it has one for 8, 16, 32, 64 and 128
/// bits.
pub open spec fn ipv6_mask_of(bits: u32) -> int {
    if bits == 128 {
        0
    } else if bits == 64 {
        1
    } else if bits == 32 {
        2
    } else if bits == 16 {
        3
    } else {
        4
    }
}

/// An IPv6 packet in the source network of a rule lies in it under the mask of
/// the prefix, if the program has it.
pub proof fn ipv6_source_is_under_a_mask(rule: RuleView, flow: FlowKey)
    requires
        rule.src.v6,
        address_fits(rule.src),
        rule.src.bits() == 8 || rule.src.bits() == 16 || rule.src.bits() == 32 || rule.src.bits()
            == 64 || rule.src.bits() == 128,
        flow.family == AF_INET6,
        network(flow.src_addr@, rule.src.bits() as int) == network(
            rule.src.addr,
            rule.src.bits() as int,
        ),
    ensures
        source_under_mask(rule, flow, ipv6_mask_of(rule.src.bits())),
{
    let bits = rule.src.bits() as int;
    let src = flow.src_addr@;
    let n = probe_source_bytes(flow.family, ipv6_mask_of(rule.src.bits()));
    assert(8 * n == bits);
    let a = network(src, bits);
    let b = network(rule.src.addr, bits);
    assert forall|i: int| 0 <= i < 16 implies keep_bytes(src, n)[i] == rule.src.lpm()[i] by {
        assert(a[i] == b[i]);
    }
    assert(keep_bytes(src, n) =~= rule.src.lpm());
}

/// For every IPv4 packet that a rule with a source prefix of whole bytes
/// covers, the rule's entry is among those that the packet program finds.
pub proof fn covered_ipv4_packet_finds_rule(rule: RuleView, flow: FlowKey, key: L4AclKey)
    requires
        !rule.src.v6 && !rule.dst.v6,
        address_fits(rule.src) && address_fits(rule.dst),
        rule.src.bits() <= 32 && rule.src.bits() % 8 == 0,
        rule.tcp_flags == 0 && rule.sport is Exact && !rule.proto.portless() ==> rule.dport
            is Exact,
        rule_covers(rule, flow),
        is_probe(key, flow, rule_level(rule), (32 - rule.src.bits()) / 8),
    ensures
        trie_matches(rule, key),
{
    ipv4_source_is_under_a_mask(rule, flow);
    covered_packet_finds_rule(rule, flow, (32 - rule.src.bits()) / 8, key);
}

/// For every IPv6 packet that a rule with a source prefix of 8, 16, 32, 64 or
/// 128 bits covers, the rule's entry is among those that the packet program
/// finds.
pub proof fn covered_ipv6_packet_finds_rule(rule: RuleView, flow: FlowKey, key: L4AclKey)
    requires
        rule.src.v6 && rule.dst.v6,
        address_fits(rule.src) && address_fits(rule.dst),
        rule.src.bits() == 8 || rule.src.bits() == 16 || rule.src.bits() == 32 || rule.src.bits()
            == 64 || rule.src.bits() == 128,
        rule.tcp_flags == 0 && rule.sport is Exact && !rule.proto.portless() ==> rule.dport
            is Exact,
        network(flow.src_addr@, rule.src.bits() as int) == network(
            rule.src.addr,
            rule.src.bits() as int,
        ),
        covers_but_source(rule, flow),
        is_probe(key, flow, rule_level(rule), ipv6_mask_of(rule.src.bits())),
    ensures
        trie_matches(rule, key),
{
    ipv6_source_is_under_a_mask(rule, flow);
    covered_packet_finds_rule(rule, flow, ipv6_mask_of(rule.src.bits()), key);
}

} // verus!
