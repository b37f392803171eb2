//! What the command-line tool reads in the lists that the daemon writes.
use vstd::prelude::*;

use crate::acl_key::{AddrView, RuleView};
use crate::ctl::client::{
    action_named, line_addr, line_entries, line_entry, number_or, port_in, proto_number,
    proto_or_tcp, rate_in, EntryView,
};
use crate::daemon::api::{acl_line, acl_lines, port_text, proto_text, rate_text};
use crate::daemon::kernel::Record;
use crate::daemon::maps::{
    acl_entries, acl_entry, port_of, value_action, value_action_name, AclEntryView,
};
use crate::display::ip_text;
use crate::laws::{lemma_shown_address_is_a_word, tool_reads_shown_address};
use crate::text::{
    decimal, join, lemma_digits_only, number_roundtrip, pad_left, pad_right, spaces, white,
    word_scan, words,
};

verus! {

/// A text without white space that is not empty.
pub open spec fn is_word(t: Seq<char>) -> bool {
    t.len() > 0 && forall|i: int| 0 <= i < t.len() ==> !white(#[trigger] t[i])
}

pub proof fn lemma_scan_word(s: Seq<char>, t: Seq<char>)
    requires
        forall|i: int| 0 <= i < t.len() ==> !white(#[trigger] t[i]),
    ensures
        word_scan(s + t) == (word_scan(s).0, word_scan(s).1 + t),
    decreases t.len(),
{
    if t.len() == 0 {
        assert(s + t =~= s);
        assert(word_scan(s).1 + t =~= word_scan(s).1);
    } else {
        let u = t.drop_last();
        assert forall|i: int| 0 <= i < u.len() implies !white(#[trigger] u[i]) by {
            assert(u[i] == t[i]);
        }
        lemma_scan_word(s, u);
        assert((s + t).drop_last() =~= s + u);
        assert((s + t).last() == t[t.len() - 1]);
        assert((word_scan(s).1 + u).push(t.last()) =~= word_scan(s).1 + t);
    }
}

pub proof fn lemma_scan_spaces(s: Seq<char>, n: int)
    requires
        n > 0,
    ensures
        word_scan(s + spaces(n)) == (words(s), Seq::<char>::empty()),
    decreases n,
{
    let t = s + spaces(n);
    assert(t.drop_last() =~= s + spaces(n - 1));
    assert(t.last() == ' ');
    assert(white(' '));
    if n == 1 {
        assert(s + spaces(0) =~= s);
        assert(word_scan(s).1.len() == 0 ==> word_scan(s).1 =~= Seq::<char>::empty());
    } else {
        lemma_scan_spaces(s, n - 1);
    }
}

/// A column adds a word to a line.
pub proof fn lemma_column(s: Seq<char>, t: Seq<char>, width: int)
    requires
        is_word(t),
    ensures
        words(s + " "@ + pad_right(t, width)) == words(s).push(t),
{
    reveal_strlit(" ");
    assert(" "@ =~= spaces(1));
    let a = s + " "@;
    lemma_scan_spaces(s, 1);
    lemma_scan_word(a, t);
    assert(Seq::<char>::empty() + t =~= t);
    let n = width - t.len();
    assert(a + pad_right(t, width) =~= a + t + spaces(n));
    assert(word_scan(a + t) == (words(s), t));
    assert(words(a + t) == words(s).push(t));
    if n > 0 {
        lemma_scan_spaces(a + t, n);
    } else {
        assert(a + t + spaces(n) =~= a + t);
    }
}

/// The first column of a line is its first word.
proof fn lemma_first_column(t: Seq<char>, width: int)
    requires
        is_word(t),
    ensures
        words(pad_left(t, width)) == seq![t],
{
    let n = width - t.len();
    let e = Seq::<char>::empty();
    assert(pad_left(t, width) =~= e + spaces(n) + t);
    assert(word_scan(e) == (Seq::<Seq<char>>::empty(), e));
    if n > 0 {
        lemma_scan_spaces(e, n);
    } else {
        assert(e + spaces(n) =~= e);
    }
    lemma_scan_word(e + spaces(n), t);
    assert(e + t =~= t);
    assert(Seq::<Seq<char>>::empty().push(t) =~= seq![t]);
}

pub proof fn lemma_number_word(n: int)
    requires
        0 <= n,
    ensures
        is_word(decimal(n)),
        decimal(n) != "any"@,
        decimal(n) != "-"@,
{
    reveal_strlit("any");
    reveal_strlit("-");
    crate::text::lemma_digits_are_a_word(n, 10);
    lemma_digits_only(n, 10, 'n');
    lemma_digits_only(n, 10, '-');
    if decimal(n) == "any"@ {
        assert(decimal(n)[1] == 'n');
    }
    if decimal(n) == "-"@ {
        assert(decimal(n)[0] == '-');
    }
}

proof fn lemma_proto_word(n: u8)
    requires
        n == 6 || n == 17 || n == 1 || n == 58,
    ensures
        is_word(proto_text(n)),
        proto_number(proto_text(n)) == n,
{
    reveal_strlit("tcp");
    reveal_strlit("udp");
    reveal_strlit("icmp");
    reveal_strlit("icmpv6");
    assert("tcp"@[0] != "udp"@[0]);
    assert("tcp"@[0] != "icmp"@[0]);
    assert("tcp"@[0] != "icmpv6"@[0]);
    assert("udp"@[0] != "icmp"@[0]);
    assert("udp"@[0] != "icmpv6"@[0]);
    assert("icmp"@.len() != "icmpv6"@.len());
}

proof fn lemma_port_word(p: u16)
    ensures
        is_word(port_text(p)),
        port_in(port_text(p)) == p,
{
    reveal_strlit("any");
    lemma_number_word(p as int);
    number_roundtrip(p as int, 10, 65535);
}

proof fn lemma_rate_word(r: u32)
    ensures
        is_word(rate_text(r)),
        rate_in(rate_text(r)) == r,
{
    reveal_strlit("-");
    lemma_number_word(r as int);
    number_roundtrip(r as int, 10, u32::MAX as int);
}

proof fn lemma_action_word(value: Seq<u8>)
    ensures
        is_word(value_action_name(value)),
        action_named(value_action_name(value)) == value_action(value),
{
    reveal_strlit("Allow");
    reveal_strlit("Drop");
    reveal_strlit("Redirect");
    reveal_strlit("Inspect");
    reveal_strlit("unknown");
    assert("Allow"@[0] != "Drop"@[0]);
    assert("Allow"@[0] != "Redirect"@[0]);
    assert("Allow"@[0] != "Inspect"@[0]);
    assert("Redirect"@[0] != "Drop"@[0]);
    assert("Inspect"@[0] != "Drop"@[0]);
    assert("Inspect"@[0] != "Redirect"@[0]);
    assert("unknown"@[0] != "Drop"@[0]);
    assert("unknown"@[0] != "Redirect"@[0]);
    assert("unknown"@[0] != "Inspect"@[0]);
}

/// The address of a listed rule as the tool holds it.
pub open spec fn tool_addr(addr: Seq<u8>, family: u8) -> AddrView {
    if family == 4 {
        AddrView { v6: false, addr: addr.subrange(12, 16), prefix: None }
    } else {
        AddrView { v6: true, addr, prefix: None }
    }
}

/// The entry that the tool has for an entry of the daemon.
pub open spec fn tool_entry(e: AclEntryView) -> EntryView {
    EntryView {
        id: e.id,
        prefix_len: e.prefix_len,
        family: e.family,
        ip_proto: e.ip_proto,
        src_port: e.src_port,
        dst_port: e.dst_port,
        action: e.action,
        rule: RuleView {
            action: e.rule.action,
            src: tool_addr(e.src_addr, e.family),
            dst: tool_addr(e.dst_addr, e.family),
            proto: proto_or_tcp(e.ip_proto),
            sport: port_of(e.src_port),
            dport: port_of(e.dst_port),
            tcp_flags: 0,
            rate: e.rule.rate,
        },
    }
}

/// A key in the L4 ACL with a protocol that has a name.
pub open spec fn named_key(key: Seq<u8>) -> bool {
    key.len() == 48 && (key[37] == 6 || key[37] == 17 || key[37] == 1 || key[37] == 58)
}

proof fn lemma_shown_address(addr: Seq<u8>, family: u8)
    requires
        addr.len() == 16,
    ensures
        is_word(ip_text(addr, family)),
        line_addr(ip_text(addr, family), family) == tool_addr(addr, family),
{
    lemma_shown_address_is_a_word(addr, family);
    tool_reads_shown_address(addr);
    if family == 4 {
        let z = crate::acl_key::zeros(12) + addr.subrange(12, 16);
        assert(z.subrange(12, 16) =~= addr.subrange(12, 16));
    } else {
        assert(ip_text(addr, family) == ip_text(addr, 6));
    }
}

#[verifier::spinoff_prover]
#[verifier::rlimit(50)]
pub proof fn lemma_acl_line_words(e: AclEntryView)
    requires
        e.id >= 0,
        is_word(ip_text(e.src_addr, e.family)),
        is_word(ip_text(e.dst_addr, e.family)),
        is_word(proto_text(e.ip_proto)),
        is_word(e.action),
    ensures
        words(acl_line(e)) == seq![
            decimal(e.id),
            decimal(e.prefix_len as int),
            decimal(e.family as int),
            ip_text(e.src_addr, e.family),
            ip_text(e.dst_addr, e.family),
            proto_text(e.ip_proto),
            port_text(e.src_port),
            port_text(e.dst_port),
            rate_text(e.rule.rate),
            e.action,
        ],
{
    lemma_number_word(e.id);
    lemma_number_word(e.prefix_len as int);
    lemma_number_word(e.family as int);
    lemma_port_word(e.src_port);
    lemma_port_word(e.dst_port);
    lemma_rate_word(e.rule.rate);
    let c1 = decimal(e.prefix_len as int);
    let c2 = decimal(e.family as int);
    let c3 = ip_text(e.src_addr, e.family);
    let c4 = ip_text(e.dst_addr, e.family);
    let c5 = proto_text(e.ip_proto);
    let c6 = port_text(e.src_port);
    let c7 = port_text(e.dst_port);
    let c8 = rate_text(e.rule.rate);
    let s0 = pad_left(decimal(e.id), 3);
    let s1 = s0 + " "@ + pad_right(c1, 5);
    let s2 = s1 + " "@ + pad_right(c2, 4);
    let s3 = s2 + " "@ + pad_right(c3, 34);
    let s4 = s3 + " "@ + pad_right(c4, 34);
    let s5 = s4 + " "@ + pad_right(c5, 4);
    let s6 = s5 + " "@ + pad_right(c6, 6);
    let s7 = s6 + " "@ + pad_right(c7, 6);
    let s8 = s7 + " "@ + pad_right(c8, 5);
    lemma_first_column(decimal(e.id), 3);
    lemma_column(s0, c1, 5);
    lemma_column(s1, c2, 4);
    lemma_column(s2, c3, 34);
    lemma_column(s3, c4, 34);
    lemma_column(s4, c5, 4);
    lemma_column(s5, c6, 6);
    lemma_column(s6, c7, 6);
    lemma_column(s7, c8, 5);
    lemma_column(s8, e.action, 0);
    assert(pad_right(e.action, 0) =~= e.action);
    assert(acl_line(e) == s8 + " "@ + e.action);
    assert(words(acl_line(e)) =~= seq![decimal(e.id)].push(c1).push(c2).push(c3).push(c4).push(
        c5,
    ).push(c6).push(c7).push(c8).push(e.action));
}

/// The tool reads the line of a rule as the daemon wrote it, where the
/// protocol has a name.
pub proof fn listed_line_is_read_back(id: int, key: Seq<u8>, value: Seq<u8>, i: int)
    requires
        0 <= id <= usize::MAX,
        named_key(key),
    ensures
        line_entry(acl_line(acl_entry(id, key, value)), i) == Some(
            tool_entry(acl_entry(id, key, value)),
        ),
{
    let e = acl_entry(id, key, value);
    lemma_shown_address(e.src_addr, e.family);
    lemma_shown_address(e.dst_addr, e.family);
    lemma_proto_word(e.ip_proto);
    lemma_action_word(value);
    lemma_acl_line_words(e);
    lemma_port_word(e.src_port);
    lemma_port_word(e.dst_port);
    lemma_rate_word(e.rule.rate);
    number_roundtrip(id, 10, usize::MAX as int);
    number_roundtrip(e.prefix_len as int, 10, u32::MAX as int);
    number_roundtrip(e.family as int, 10, 255);
    let p = words(acl_line(e));
    assert(p.skip(9) =~= seq![e.action]);
    assert(join(p.skip(9), " "@) == e.action);
    assert(number_or(p[0], usize::MAX as int, i) == id);
    assert(number_or(p[1], u32::MAX as int, 0) == e.prefix_len);
    assert(number_or(p[2], 255, 4) == e.family);
}

/// The entries that the tool has for entries of the daemon.
pub open spec fn tool_entries(v: Seq<AclEntryView>) -> Seq<EntryView> {
    Seq::new(v.len(), |i: int| tool_entry(v[i]))
}

/// The tool reads every rule of a list that the daemon writes, in order and
/// under its number, where the protocols have names.
pub proof fn listing_is_read_back(records: Seq<Record>)
    requires
        records.len() <= usize::MAX,
        forall|i: int| 0 <= i < records.len() ==> named_key(#[trigger] records[i].key@),
    ensures
        line_entries(acl_lines(acl_entries(records))) == tool_entries(acl_entries(records)),
    decreases records.len(),
{
    let all = acl_entries(records);
    if records.len() == 0 {
        assert(line_entries(acl_lines(all)) =~= tool_entries(all));
    } else {
        let rest = records.drop_last();
        assert forall|i: int| 0 <= i < rest.len() implies named_key(
            #[trigger] rest[i].key@,
        ) by {
            assert(rest[i] == records[i]);
        }
        listing_is_read_back(rest);
        let before = acl_entries(rest);
        assert(named_key(records[records.len() - 1].key@));
        if let Some(v) = records.last().value {
            let e = acl_entry(records.len() - 1, records.last().key@, v@);
            assert(all == before.push(e));
            assert(acl_lines(all).drop_last() =~= acl_lines(before));
            assert(acl_lines(all).last() == acl_line(e));
            listed_line_is_read_back(
                records.len() - 1,
                records.last().key@,
                v@,
                acl_lines(all).len() - 1,
            );
            assert(tool_entries(all) =~= tool_entries(before).push(tool_entry(e)));
        }
    }
}

} // verus!
