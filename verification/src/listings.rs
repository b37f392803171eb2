//! What the lines of the lists of backends, services and tags say.
use vstd::prelude::*;

use crate::acl_key::AddrView;
use crate::ctl::cli::{addr_text, entry_row, number_name};
use crate::ctl::client::EntryView;
use crate::daemon::api::{
    acl_line, backend_line, port_text, proto_text, rate_text, service_line, vlan_line,
};
use crate::daemon::backend::BackendEntry;
use crate::daemon::maps::{acl_entry, vlan_entry};
use crate::daemon::service::ServiceView;
use crate::display::{dotted, ip_text};
use crate::laws::lemma_shown_address_is_a_word;
use crate::lines::{
    is_word, lemma_acl_line_words, lemma_column, lemma_number_word, lemma_scan_spaces,
    lemma_scan_word,
};
use crate::text::{decimal, pad_right, spaces, white, word_scan, words};

verus! {

/// The first column of a line, padded on the right, is its first word.
proof fn lemma_left_column(t: Seq<char>, width: int)
    requires
        is_word(t),
    ensures
        words(pad_right(t, width)) == seq![t],
{
    let n = width - t.len();
    let e = Seq::<char>::empty();
    assert(word_scan(e) == (Seq::<Seq<char>>::empty(), e));
    lemma_scan_word(e, t);
    assert(e + t =~= t);
    assert(words(t) == Seq::<Seq<char>>::empty().push(t));
    assert(Seq::<Seq<char>>::empty().push(t) =~= seq![t]);
    assert(pad_right(t, width) =~= t + spaces(n));
    if n > 0 {
        lemma_scan_spaces(t, n);
    } else {
        assert(t + spaces(n) =~= t);
    }
}

proof fn lemma_five_columns(
    a: Seq<char>,
    b: Seq<char>,
    c: Seq<char>,
    d: Seq<char>,
    e: Seq<char>,
    w: Seq<int>,
)
    requires
        is_word(a) && is_word(b) && is_word(c) && is_word(d) && is_word(e),
        w.len() == 5,
    ensures
        words(
            pad_right(a, w[0]) + " "@ + pad_right(b, w[1]) + " "@ + pad_right(c, w[2]) + " "@
                + pad_right(d, w[3]) + " "@ + pad_right(e, w[4]),
        ) == seq![a, b, c, d, e],
{
    let s0 = pad_right(a, w[0]);
    let s1 = s0 + " "@ + pad_right(b, w[1]);
    let s2 = s1 + " "@ + pad_right(c, w[2]);
    let s3 = s2 + " "@ + pad_right(d, w[3]);
    lemma_left_column(a, w[0]);
    lemma_column(s0, b, w[1]);
    lemma_column(s1, c, w[2]);
    lemma_column(s2, d, w[3]);
    lemma_column(s3, e, w[4]);
    assert(seq![a].push(b).push(c).push(d).push(e) =~= seq![a, b, c, d, e]);
}

/// An IPv4 address as a text, four numbers between dots.
pub open spec fn four_numbers(a: u8, b: u8, c: u8, d: u8) -> Seq<char> {
    decimal(a as int) + "."@ + decimal(b as int) + "."@ + decimal(c as int) + "."@ + decimal(
        d as int,
    )
}

/// The line of a backend says its number, address, port, interface and group, and
/// whether it is healthy.
pub proof fn backend_line_says_its_fields(e: BackendEntry, name: Seq<char>)
    requires
        e.dev_name matches Some(d) ==> d@ == name,
        e.dev_name is None ==> name == "?"@,
        is_word(name),
    ensures
        ({
            let b = e.backend;
            words(backend_line(e)) == seq![
                decimal(e.id as int),
                four_numbers(b.addr@[12], b.addr@[13], b.addr@[14], b.addr@[15]),
                decimal(b.port as int),
                name,
                decimal(b.backend_group as int),
                if b.flags % 2 == 0 {
                    "ok"@
                } else {
                    "unhealthy"@
                },
            ]
        }),
{
    reveal_strlit("ok");
    reveal_strlit("unhealthy");
    reveal_strlit("?");
    let b = e.backend;
    lemma_number_word(e.id as int);
    lemma_number_word(b.port as int);
    lemma_number_word(b.backend_group as int);
    lemma_shown_address_is_a_word(b.addr@, 4);
    let a = dotted(b.addr@);
    let health = if b.flags % 2 == 0 {
        "ok"@
    } else {
        "unhealthy"@
    };
    let group = decimal(b.backend_group as int);
    let c = [decimal(e.id as int), a, decimal(b.port as int), name, group];
    lemma_five_columns(c[0], c[1], c[2], c[3], c[4], seq![4, 18, 6, 8, 6]);
    let s = pad_right(c[0], 4) + " "@ + pad_right(c[1], 18) + " "@ + pad_right(c[2], 6) + " "@
        + pad_right(c[3], 8) + " "@ + pad_right(c[4], 6);
    lemma_column(s, health, 0);
    assert(pad_right(health, 0) =~= health);
    assert(backend_line(e) == s + " "@ + health);
    assert(seq![c[0], c[1], c[2], c[3], c[4]].push(health) =~= seq![
        c[0],
        c[1],
        c[2],
        c[3],
        c[4],
        health,
    ]);
}

/// The line of a service says its address, port, protocol, group and flags.
pub proof fn service_line_says_its_fields(e: ServiceView)
    requires
        e.addr.len() == 16,
    ensures
        words(service_line(e)) == seq![
            four_numbers(e.addr[12], e.addr[13], e.addr[14], e.addr[15]),
            decimal(e.port as int),
            if e.proto == 6 {
                "tcp"@
            } else {
                "udp"@
            },
            decimal(e.backend_group as int),
            decimal(e.flags as int),
        ],
{
    reveal_strlit("tcp");
    reveal_strlit("udp");
    lemma_number_word(e.port as int);
    lemma_number_word(e.backend_group as int);
    lemma_number_word(e.flags as int);
    lemma_shown_address_is_a_word(e.addr, 4);
    let proto = if e.proto == 6 {
        "tcp"@
    } else {
        "udp"@
    };
    let flags = decimal(e.flags as int);
    lemma_five_columns(
        dotted(e.addr),
        decimal(e.port as int),
        proto,
        decimal(e.backend_group as int),
        flags,
        seq![18, 6, 6, 6, 0],
    );
    assert(pad_right(flags, 0) =~= flags);
}

/// The line of a rule for tags says its number, its tags, its action and its
/// rate; a rule without an inner tag has a dash for it.
pub proof fn vlan_line_says_its_fields(id: int, key: Seq<u8>, value: Seq<u8>)
    requires
        id >= 0,
        key.len() == 8,
        value.len() == 8,
        value[0] <= 1 && value[1] == 0 && value[2] == 0 && value[3] == 0,
    ensures
        words(vlan_line(vlan_entry(id, key, value))) == seq![
            decimal(id),
            decimal(key[0] + 256 * key[1]),
            if key[2] == 0 && key[3] == 0 {
                "-"@
            } else {
                decimal(key[2] + 256 * key[3])
            },
            if value[0] == 0 {
                "allow"@
            } else {
                "drop"@
            },
            decimal(value[4] + 256 * value[5] + 65536 * value[6] + 16777216 * value[7]),
        ],
{
    reveal_strlit("-");
    reveal_strlit("allow");
    reveal_strlit("drop");
    reveal_strlit("Allow");
    reveal_strlit("Drop");
    assert("Allow"@[0] != "Drop"@[0]);
    let e = vlan_entry(id, key, value);
    lemma_number_word(id);
    lemma_number_word(e.outer_vlan as int);
    lemma_number_word(e.inner_vlan as int);
    lemma_number_word(e.rate as int);
    let outer = decimal(key[0] + 256 * key[1]);
    let inner = if key[2] == 0 && key[3] == 0 {
        "-"@
    } else {
        decimal(key[2] + 256 * key[3])
    };
    let action = if value[0] == 0 {
        "allow"@
    } else {
        "drop"@
    };
    let rate = decimal(value[4] + 256 * value[5] + 65536 * value[6] + 16777216 * value[7]);
    lemma_five_columns(decimal(id), outer, inner, action, rate, seq![5, 10, 10, 8, 6]);
}

// ---- The table of the tool ----

/// The name of a protocol number.
pub open spec fn proto_word(n: u8) -> Seq<char> {
    if n == 6 {
        "tcp"@
    } else if n == 17 {
        "udp"@
    } else if n == 1 {
        "icmp"@
    } else if n == 58 {
        "icmpv6"@
    } else {
        "unknown"@
    }
}

/// A port, or that any port will do.
pub open spec fn port_word(p: u16) -> Seq<char> {
    if p == 0 {
        "any"@
    } else {
        decimal(p as int)
    }
}

/// A rate, or a dash for none.
pub open spec fn rate_word(r: u32) -> Seq<char> {
    if r == 0 {
        "-"@
    } else {
        decimal(r as int)
    }
}

/// An address of a rule.
pub open spec fn rule_address(a: AddrView) -> Seq<char> {
    if a.v6 {
        ip_text(a.addr, 6)
    } else {
        four_numbers(a.addr[0], a.addr[1], a.addr[2], a.addr[3])
    }
}

proof fn lemma_proto_words(n: u8)
    ensures
        is_word(proto_word(n)),
        number_name(n) == proto_word(n),
{
    reveal_strlit("tcp");
    reveal_strlit("udp");
    reveal_strlit("icmp");
    reveal_strlit("icmpv6");
    reveal_strlit("unknown");
}

proof fn lemma_small_words(p: u16, r: u32)
    ensures
        is_word(port_word(p)),
        port_text(p) == port_word(p),
        is_word(rate_word(r)),
        rate_text(r) == rate_word(r),
{
    reveal_strlit("any");
    reveal_strlit("-");
    lemma_number_word(p as int);
    lemma_number_word(r as int);
}

proof fn lemma_address_word(a: AddrView)
    requires
        a.addr.len() == if a.v6 {
            16int
        } else {
            4
        },
    ensures
        is_word(rule_address(a)),
        addr_text(a) == rule_address(a),
{
    if a.v6 {
        lemma_shown_address_is_a_word(a.addr, 6);
    } else {
        let wide = Seq::new(12, |i: int| 0u8) + a.addr;
        lemma_shown_address_is_a_word(wide, 4);
        assert(dotted(wide) == rule_address(a));
    }
}

proof fn lemma_line_end(s: Seq<char>)
    ensures
        words(s + "\n"@) == words(s),
{
    reveal_strlit("\n");
    let t = s + "\n"@;
    assert(t.drop_last() =~= s);
    assert(t.last() == '\n');
    assert(white('\n'));
}

/// The row of a rule in the table of the tool says its number, prefix length and
/// family, its addresses, its protocol, its ports, its rate and its action.
#[verifier::spinoff_prover]
#[verifier::rlimit(50)]
pub proof fn rule_row_says_its_fields(e: EntryView)
    requires
        e.id >= 0,
        e.rule.src.addr.len() == if e.rule.src.v6 {
            16int
        } else {
            4
        },
        e.rule.dst.addr.len() == if e.rule.dst.v6 {
            16int
        } else {
            4
        },
        is_word(e.action),
    ensures
        words(entry_row(e)) == seq![
            decimal(e.id),
            decimal(e.prefix_len as int),
            decimal(e.family as int),
            rule_address(e.rule.src),
            rule_address(e.rule.dst),
            proto_word(e.ip_proto),
            port_word(e.src_port),
            port_word(e.dst_port),
            rate_word(e.rule.rate),
            e.action,
        ],
{
    lemma_number_word(e.id);
    lemma_number_word(e.prefix_len as int);
    lemma_number_word(e.family as int);
    lemma_address_word(e.rule.src);
    lemma_address_word(e.rule.dst);
    lemma_proto_words(e.ip_proto);
    lemma_small_words(e.src_port, e.rule.rate);
    lemma_small_words(e.dst_port, e.rule.rate);
    let c1 = decimal(e.prefix_len as int);
    let c2 = decimal(e.family as int);
    let c3 = rule_address(e.rule.src);
    let c4 = rule_address(e.rule.dst);
    let c5 = proto_word(e.ip_proto);
    let c6 = port_word(e.src_port);
    let c7 = port_word(e.dst_port);
    let c8 = rate_word(e.rule.rate);
    lemma_five_columns(decimal(e.id), c1, c2, c3, c4, seq![3, 5, 4, 34, 34]);
    let s4 = pad_right(decimal(e.id), 3) + " "@ + pad_right(c1, 5) + " "@ + pad_right(c2, 4) + " "@
        + pad_right(c3, 34) + " "@ + pad_right(c4, 34);
    let s5 = s4 + " "@ + pad_right(c5, 4);
    let s6 = s5 + " "@ + pad_right(c6, 6);
    let s7 = s6 + " "@ + pad_right(c7, 6);
    let s8 = s7 + " "@ + pad_right(c8, 5);
    let s9 = s8 + " "@ + e.action;
    lemma_column(s4, c5, 4);
    lemma_column(s5, c6, 6);
    lemma_column(s6, c7, 6);
    lemma_column(s7, c8, 5);
    lemma_column(s8, e.action, 0);
    assert(pad_right(e.action, 0) =~= e.action);
    lemma_line_end(s9);
    assert(entry_row(e) == s9 + "\n"@);
    assert(words(s9) =~= seq![decimal(e.id), c1, c2, c3, c4].push(c5).push(c6).push(c7).push(
        c8,
    ).push(e.action));
}

// ---- Lines from the bytes of an entry ----

/// The number in four bytes, the low one first.
pub open spec fn number4(v: Seq<u8>, at: int) -> int {
    v[at] + 256 * v[at + 1] + 65536 * v[at + 2] + 16777216 * v[at + 3]
}

/// The name of the action of a number; a number without one allows.
pub open spec fn action_name_of(n: int) -> Seq<char> {
    if n == 1 {
        "Drop"@
    } else if n == 2 {
        "Redirect"@
    } else if n == 3 {
        "Inspect"@
    } else {
        "Allow"@
    }
}

/// The protocol in a line: its name, or its number.
pub open spec fn proto_or_number(n: u8, number: Seq<char>) -> Seq<char> {
    if n == 6 {
        "tcp"@
    } else if n == 17 {
        "udp"@
    } else if n == 1 {
        "icmp"@
    } else if n == 58 {
        "icmpv6"@
    } else {
        number
    }
}

/// The address at `at` of a key: four numbers in an IPv4 key.
pub open spec fn key_address(key: Seq<u8>, at: int) -> Seq<char> {
    if key[4] == 4 {
        four_numbers(key[at + 12], key[at + 13], key[at + 14], key[at + 15])
    } else {
        ip_text(key.subrange(at, at + 16), 6)
    }
}

proof fn lemma_proto_or_number(n: u8, number: Seq<char>)
    requires
        is_word(number),
        n != 6 && n != 17 && n != 1 && n != 58 ==> proto_text(n) == number,
    ensures
        is_word(proto_text(n)),
        proto_text(n) == proto_or_number(n, number),
{
    reveal_strlit("tcp");
    reveal_strlit("udp");
    reveal_strlit("icmp");
    reveal_strlit("icmpv6");
}

proof fn lemma_action_names(n: int)
    ensures
        is_word(action_name_of(n)),
{
    reveal_strlit("Allow");
    reveal_strlit("Drop");
    reveal_strlit("Redirect");
    reveal_strlit("Inspect");
}

proof fn lemma_key_address(key: Seq<u8>, at: int)
    requires
        0 <= at,
        at + 16 <= key.len(),
        key.len() > 4,
    ensures
        is_word(key_address(key, at)),
        ip_text(key.subrange(at, at + 16), key[4]) == key_address(key, at),
{
    let a = key.subrange(at, at + 16);
    lemma_shown_address_is_a_word(a, key[4]);
    assert(a[12] == key[at + 12] && a[13] == key[at + 13]);
    assert(a[14] == key[at + 14] && a[15] == key[at + 15]);
}

/// The line of a rule says what the bytes of its entry say: the length and the
/// family at the start of the key, the source behind them, then the destination,
/// the protocol, the destination's port and the source's port; in the value the
/// action and the rate.
#[verifier::spinoff_prover]
#[verifier::rlimit(50)]
pub proof fn rule_line_says_its_entry(id: int, key: Seq<u8>, value: Seq<u8>)
    requires
        id >= 0,
        key.len() == 48,
        value.len() == 8,
    ensures
        words(acl_line(acl_entry(id, key, value))) == seq![
            decimal(id),
            decimal(number4(key, 0)),
            decimal(key[4] as int),
            key_address(key, 5),
            key_address(key, 21),
            proto_or_number(key[37], decimal(key[37] as int)),
            port_word((key[40] + 256 * key[41]) as u16),
            port_word((key[38] + 256 * key[39]) as u16),
            rate_word(number4(value, 4) as u32),
            action_name_of(number4(value, 0)),
        ],
{
    let e = acl_entry(id, key, value);
    lemma_key_address(key, 5);
    lemma_key_address(key, 21);
    lemma_number_word(key[37] as int);
    lemma_proto_or_number(key[37], decimal(key[37] as int));
    lemma_action_names(number4(value, 0));
    assert(e.action == action_name_of(number4(value, 0)));
    assert(e.prefix_len == number4(key, 0));
    assert(e.rule.rate == number4(value, 4));
    assert(e.src_port == key[40] + 256 * key[41]);
    assert(e.dst_port == key[38] + 256 * key[39]);
    lemma_acl_line_words(e);
    lemma_small_words(e.src_port, e.rule.rate);
    lemma_small_words(e.dst_port, e.rule.rate);
}

} // verus!
