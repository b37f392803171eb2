//! Where the command-line tool, the configuration and the daemon agree.
use vstd::prelude::*;

use crate::acl_key::{
    key_port, parsed_acl_addr, parsed_port, parsed_proto, AddrView, PortSpec, Proto,
};
use crate::ctl::check::{element_error, elements_error};
use crate::ctl::cli;
use crate::ctl::client::counter_pairs;
use crate::daemon::api::counter_data;
use crate::daemon::config::{address_item, address_items, vlan_pairs, AclRule, Config};
use crate::daemon::maps::{
    after_bracket, counter_numbers_are_inverse, pair, parsed_action, parsed_endpoint, parsed_rule,
};
use crate::daemon::reload::{
    address_steps, block_addresses, pair_step, pair_steps, plan, section_steps, tag_steps,
    vlan_step, vlan_steps, StepView,
};
use crate::maps::{AclAction, CounterId};
use crate::text::{
    decimal, digit_value, ends, find, has, lemma_digits, lemma_digits_are_a_word, lemma_digits_only,
    lemma_find, lemma_rfind, lower_text, number_roundtrip, rfind, rsplit_once, starts,
};
use crate::yaml::YamlView;

verus! {

/// The tool shows every counter under the name and with the value that the
/// daemon read.
pub proof fn counters_are_read_back(v: Seq<(CounterId, u64)>)
    ensures
        counter_pairs(counter_data(v)) == v,
{
    assert forall|i: int| 0 <= i < v.len() implies counter_pairs(counter_data(v))[i] == v[i] by {
        counter_numbers_are_inverse(v[i].0, 0);
    }
    assert(counter_pairs(counter_data(v)) =~= v);
}

// ---- Endpoints ----

/// The last colon of a text with a colon before a part without one.
proof fn lemma_last_colon(addr: Seq<char>, port: Seq<char>)
    requires
        forall|i: int| 0 <= i < port.len() ==> port[i] != ':',
    ensures
        rsplit_once(addr + ":"@ + port, ':') == Some((addr, port)),
{
    reveal_strlit(":");
    let s = addr + ":"@ + port;
    lemma_rfind(s, ':');
    let n = addr.len() as int;
    assert(s[n] == ':');
    match rfind(s, ':') {
        Some(i) => {
            if i > n {
                assert(s[i] == port[i - n - 1]);
            }
            assert(i == n);
        },
        None => {},
    }
    assert(s.take(n) =~= addr);
    assert(s.skip(n + 1) =~= port);
}

/// A text with a bracket at its start has it before what is added behind it.
proof fn lemma_no_bracket(addr: Seq<char>, rest: Seq<char>)
    requires
        !starts(addr, "["@),
        rest.len() > 0 && rest[0] == ':',
    ensures
        !starts(addr + rest, "["@),
{
    reveal_strlit("[");
    let s = addr + rest;
    if starts(s, "["@) {
        assert(s.take(1)[0] == '[');
        if addr.len() > 0 {
            assert(addr.take(1) =~= "["@);
        } else {
            assert(s[0] == ':');
        }
    }
}

proof fn lemma_any_port()
    ensures
        parsed_port("any"@) == Ok::<PortSpec, Seq<char>>(PortSpec::Any),
{
    reveal_strlit("any");
    assert(lower_text("any"@) =~= "any"@);
}

proof fn lemma_any_end(addr: Seq<char>)
    ensures
        ends(addr + ":any"@, ":any"@),
        (addr + ":any"@).take((addr + ":any"@).len() - 4) == addr,
        rsplit_once(addr + ":any"@, ':') == Some((addr, "any"@)),
        ":any"@.len() > 0 && ":any"@[0] == ':',
{
    reveal_strlit(":any");
    reveal_strlit(":");
    reveal_strlit("any");
    let s = addr + ":any"@;
    assert(s =~= addr + ":"@ + "any"@);
    lemma_last_colon(addr, "any"@);
    assert(s.skip(s.len() - 4) =~= ":any"@);
    assert(s.take(s.len() - 4) =~= addr);
}

/// The daemon reads the source of a planned step as the configured address
/// with any port, whatever the protocol.
pub proof fn planned_source_is_read(addr: Seq<char>, proto: Proto)
    requires
        !starts(addr, "["@),
    ensures
        parsed_endpoint(addr + ":any"@, proto) == match parsed_acl_addr(addr) {
            Ok(a) => Ok((a, PortSpec::Any)),
            Err(e) => Err(e),
        },
{
    lemma_any_end(addr);
    lemma_any_port();
    lemma_no_bracket(addr, ":any"@);
}

/// The daemon reads the destination of a planned step as the configured
/// address and port, for a protocol with ports.
pub proof fn planned_destination_is_read(addr: Seq<char>, port: Seq<char>, proto: Proto)
    requires
        !starts(addr, "["@),
        !proto.portless(),
        forall|i: int| 0 <= i < port.len() ==> port[i] != ':',
    ensures
        parsed_endpoint(addr + ":"@ + port, proto) == pair(addr, port),
{
    reveal_strlit(":");
    lemma_last_colon(addr, port);
    lemma_no_bracket(addr, ":"@ + port);
    assert(addr + ":"@ + port =~= addr + (":"@ + port));
}

/// A text with a colon is neither `any` nor a star.
proof fn lemma_colon_is_no_word(s: Seq<char>)
    requires
        rfind(s, ':') is Some,
    ensures
        lower_text(s) != "any"@,
        s != "*"@,
{
    reveal_strlit("any");
    reveal_strlit("*");
    lemma_rfind(s, ':');
    let i = rfind(s, ':')->0;
    assert(lower_text(s)[i] == ':');
    if s == "*"@ {
        assert(s[i] == '*');
    }
    if lower_text(s) == "any"@ {
        assert("any"@[i] == ':');
        assert("any"@[0] == 'a' && "any"@[1] == 'n' && "any"@[2] == 'y');
        assert(lower_text(s).len() == s.len());
        assert("any"@.len() == 3);
    }
}

/// An endpoint that the tool accepts is one that the daemon accepts, with the
/// same address and the same port in the key. The protocol is one with ports,
/// and the text holds a colon; an IPv6 address may stand in brackets.
pub proof fn daemon_reads_what_the_tool_accepts(
    s: Seq<char>,
    name: Seq<char>,
    proto: Proto,
    addr: AddrView,
    port: u16,
)
    requires
        !proto.portless(),
        rfind(s, ':') is Some,
        cli::parsed_endpoint(s, name, proto) == Ok::<(AddrView, u16), Seq<char>>((addr, port)),
    ensures
        parsed_endpoint(s, proto) matches Ok((a, p)) && a == addr && key_port(proto, p) == port,
{
    lemma_colon_is_no_word(s);
}

proof fn lemma_port_text(p: u16)
    ensures
        parsed_port(decimal(p as int)) == Ok::<PortSpec, Seq<char>>(PortSpec::Exact(p)),
        forall|i: int| 0 <= i < decimal(p as int).len() ==> decimal(p as int)[i] != ':',
        decimal(p as int).len() > 0,
{
    let d = decimal(p as int);
    number_roundtrip(p as int, 10, 65535);
    lemma_digits_only(p as int, 10, ':');
    lemma_digits_only(p as int, 10, '*');
    lemma_digits(p as int, 10);
    lemma_digits_are_a_word(p as int, 10);
    reveal_strlit("any");
    reveal_strlit("*");
    if lower_text(d) == "any"@ {
        assert(lower_text(d).len() == d.len());
        assert("any"@.len() == 3);
        assert(lower_text(d)[1] == 'n');
        assert(digit_value(d[1]) < 10);
    }
    if d == "*"@ {
        assert(d[0] == '*');
    }
}

proof fn lemma_plain_parts(addr: Seq<char>, d: Seq<char>)
    requires
        addr.len() > 0,
        forall|i: int| 0 <= i < addr.len() ==> addr[i] != '[' && addr[i] != ']',
        forall|i: int| 0 <= i < d.len() ==> d[i] != ':',
    ensures
        ({
            let s = addr + ":"@ + d;
            &&& !starts(addr, "["@)
            &&& !starts(s, "["@)
            &&& rfind(s, ':') == Some(addr.len() as int)
            &&& s.take(addr.len() as int) == addr
            &&& s.skip(addr.len() as int + 1) == d
            &&& lower_text(s) != "any"@
            &&& s != "*"@
        }),
{
    reveal_strlit("[");
    reveal_strlit(":");
    let s = addr + ":"@ + d;
    if starts(addr, "["@) {
        assert(addr.take(1)[0] == '[');
    }
    if starts(s, "["@) {
        assert(s.take(1)[0] == '[');
        assert(s[0] == addr[0]);
    }
    lemma_rfind(s, ':');
    assert(s[addr.len() as int] == ':');
    let i = rfind(s, ':')->0;
    if i > addr.len() {
        assert(s[i] == d[i - addr.len() - 1]);
    }
    lemma_colon_is_no_word(s);
    assert(s.take(addr.len() as int) =~= addr);
    assert(s.skip(addr.len() as int + 1) =~= d);
}

proof fn lemma_braced_parts(addr: Seq<char>, d: Seq<char>)
    requires
        forall|i: int| 0 <= i < addr.len() ==> addr[i] != '[' && addr[i] != ']',
    ensures
        ({
            let s = "["@ + addr + "]:"@ + d;
            &&& starts(s, "["@)
            &&& find(s, ']') == Some(addr.len() as int + 1)
            &&& s.subrange(1, addr.len() as int + 1) == addr
            &&& after_bracket(s, addr.len() as int + 1) == d
            &&& lower_text(s) != "any"@
            &&& s != "*"@
        }),
{
    reveal_strlit("[");
    reveal_strlit("]:");
    reveal_strlit(":");
    let s = "["@ + addr + "]:"@ + d;
    let n = addr.len() as int;
    assert(s.take(1) =~= "["@);
    lemma_find(s, ']');
    assert(s[n + 1] == ']');
    let i = find(s, ']')->0;
    if i < n + 1 {
        if i > 0 {
            assert(s[i] == addr[i - 1]);
        }
    }
    assert(s.subrange(1, n + 1) =~= addr);
    let rest = s.skip(n + 2);
    assert(rest =~= ":"@ + d);
    assert(rest.take(1) =~= ":"@);
    assert(rest.skip(1) =~= d);
    assert(s[n + 2] == ':');
    lemma_rfind(s, ':');
    lemma_colon_is_no_word(s);
}

/// An address with a port behind a colon is read as that address and that port,
/// by the daemon and by the tool; so is an address in brackets. With `any` in
/// place of the port it is any port.
pub proof fn endpoints_name_address_and_port(
    addr: Seq<char>,
    port: u16,
    proto: Proto,
    name: Seq<char>,
)
    requires
        !proto.portless(),
        addr.len() > 0,
        forall|i: int| 0 <= i < addr.len() ==> addr[i] != '[' && addr[i] != ']',
    ensures
        parsed_endpoint(addr + ":"@ + decimal(port as int), proto) == match parsed_acl_addr(addr) {
            Ok(a) => Ok((a, PortSpec::Exact(port))),
            Err(e) => Err(e),
        },
        parsed_endpoint(addr + ":any"@, proto) == match parsed_acl_addr(addr) {
            Ok(a) => Ok((a, PortSpec::Any)),
            Err(e) => Err(e),
        },
        parsed_endpoint("["@ + addr + "]:"@ + decimal(port as int), proto) == match parsed_acl_addr(
            addr,
        ) {
            Ok(a) => Ok((a, PortSpec::Exact(port))),
            Err(e) => Err(e),
        },
        cli::parsed_endpoint(addr + ":"@ + decimal(port as int), name, proto)
            == match parsed_acl_addr(addr) {
            Ok(a) => Ok((a, port)),
            Err(e) => Err(e),
        },
        cli::parsed_endpoint("["@ + addr + "]:"@ + decimal(port as int), name, proto)
            == match parsed_acl_addr(addr) {
            Ok(a) => Ok((a, port)),
            Err(e) => Err(e),
        },
{
    let d = decimal(port as int);
    lemma_port_text(port);
    lemma_plain_parts(addr, d);
    lemma_braced_parts(addr, d);
    planned_destination_is_read(addr, d, proto);
    planned_source_is_read(addr, proto);
}

/// The rule of a command says what its words say: the action, the two addresses,
/// the ports behind them, the protocol and the rate, which is 0 where none is
/// given.
pub proof fn rules_say_what_their_words_say(
    drops: bool,
    udp: bool,
    src: Seq<char>,
    sport: u16,
    dst: Seq<char>,
    dport: u16,
    rate: Option<u32>,
    a: AddrView,
    b: AddrView,
)
    requires
        src.len() > 0 && dst.len() > 0,
        forall|i: int| 0 <= i < src.len() ==> src[i] != '[' && src[i] != ']',
        forall|i: int| 0 <= i < dst.len() ==> dst[i] != '[' && dst[i] != ']',
        parsed_acl_addr(src) == Ok::<AddrView, Seq<char>>(a),
        parsed_acl_addr(dst) == Ok::<AddrView, Seq<char>>(b),
    ensures
        parsed_rule(
            if drops {
                "drop"@
            } else {
                "allow"@
            },
            src + ":"@ + decimal(sport as int),
            dst + ":"@ + decimal(dport as int),
            Some(
                if udp {
                    "udp"@
                } else {
                    "tcp"@
                },
            ),
            rate,
        ) matches Ok(rule) && {
            &&& rule.action == if drops {
                AclAction::Drop
            } else {
                AclAction::Allow
            }
            &&& rule.src == a
            &&& rule.dst == b
            &&& rule.sport == PortSpec::Exact(sport)
            &&& rule.dport == PortSpec::Exact(dport)
            &&& rule.proto == if udp {
                Proto::Udp
            } else {
                Proto::Tcp
            }
            &&& rule.tcp_flags == 0
            &&& rate matches Some(r) ==> rule.rate == r
            &&& rate is None ==> rule.rate == 0
        },
{
    let proto = if udp {
        Proto::Udp
    } else {
        Proto::Tcp
    };
    endpoints_name_address_and_port(src, sport, proto, src);
    endpoints_name_address_and_port(dst, dport, proto, dst);
    lemma_words();
}

proof fn lemma_words()
    ensures
        parsed_action("drop"@) == Ok::<AclAction, Seq<char>>(AclAction::Drop),
        parsed_action("allow"@) == Ok::<AclAction, Seq<char>>(AclAction::Allow),
        parsed_proto("udp"@) == Ok::<Proto, Seq<char>>(Proto::Udp),
        parsed_proto("tcp"@) == Ok::<Proto, Seq<char>>(Proto::Tcp),
{
    reveal_strlit("drop");
    reveal_strlit("allow");
    reveal_strlit("udp");
    reveal_strlit("tcp");
    assert("drop"@.len() == 4 && "allow"@.len() == 5);
    assert(lower_text("udp"@) =~= "udp"@);
    assert(lower_text("tcp"@) =~= "tcp"@);
    assert("udp"@[0] == 'u' && "tcp"@[0] == 't');
}

// ---- Configurations ----

/// The items of the list hold their scalars without a tag.
pub open spec fn untagged_items(s: Seq<YamlView>) -> bool {
    forall|i: int|
        0 <= i < s.len() ==> match #[trigger] s[i] {
            YamlView::Sequence(inner) => inner.len() == 1 ==> inner[0] !is Tagged,
            _ => true,
        }
}

/// An address list in which the check finds nothing wrong can be loaded.
pub proof fn checked_addresses_load(s: Seq<YamlView>, at: Seq<char>)
    requires
        untagged_items(s),
        elements_error(s, at) is None,
    ensures
        address_items(s) is Ok,
        address_items(s)->Ok_0.len() == s.len(),
    decreases s.len(),
{
    if s.len() > 0 {
        let rest = s.drop_last();
        assert forall|i: int| 0 <= i < rest.len() implies match #[trigger] rest[i] {
            YamlView::Sequence(inner) => inner.len() == 1 ==> inner[0] !is Tagged,
            _ => true,
        } by {
            assert(rest[i] == s[i]);
        }
        checked_addresses_load(rest, at);
        assert(s.last() == s[s.len() - 1]);
        assert(element_error(s.last(), at) is None);
        assert(address_item(s.last()) is Ok);
    }
}

proof fn lemma_pair_is_planned(
    rule: AclRule,
    action: Seq<char>,
    srcs: Seq<Seq<char>>,
    dsts: Seq<Seq<char>>,
    i: int,
    j: int,
)
    requires
        0 <= i < srcs.len(),
        0 <= j < dsts.len(),
    ensures
        pair_steps(rule, action, srcs, dsts).contains(pair_step(rule, action, srcs[i], dsts[j])),
    decreases srcs.len(),
{
    let before = pair_steps(rule, action, srcs.drop_last(), dsts);
    let row = Seq::new(dsts.len(), |k: int| pair_step(rule, action, srcs.last(), dsts[k]));
    let all = pair_steps(rule, action, srcs, dsts);
    if i == srcs.len() - 1 {
        assert(row[j] == pair_step(rule, action, srcs[i], dsts[j]));
        assert(all[before.len() + j] == row[j]);
    } else {
        lemma_pair_is_planned(rule, action, srcs.drop_last(), dsts, i, j);
        let k = choose|k: int|
            0 <= k < before.len() && before[k] == pair_step(rule, action, srcs[i], dsts[j]);
        assert(all[k] == before[k]);
    }
}

proof fn lemma_tag_is_planned(
    rule: AclRule,
    action: Seq<char>,
    specs: Seq<crate::daemon::config::VlanSpec>,
    i: int,
    j: int,
)
    requires
        0 <= i < specs.len(),
        0 <= j < vlan_pairs(specs[i]).len(),
    ensures
        vlan_steps(rule, action, specs).contains(
            vlan_step(rule, action, vlan_pairs(specs[i])[j]),
        ),
    decreases specs.len(),
{
    let pairs = vlan_pairs(specs.last());
    let before = vlan_steps(rule, action, specs.drop_last());
    let row = Seq::new(pairs.len(), |k: int| vlan_step(rule, action, pairs[k]));
    let all = vlan_steps(rule, action, specs);
    let step = vlan_step(rule, action, vlan_pairs(specs[i])[j]);
    if i == specs.len() - 1 {
        assert(row[j] == step);
        assert(all[before.len() + j] == row[j]);
    } else {
        lemma_tag_is_planned(rule, action, specs.drop_last(), i, j);
        let k = choose|k: int| 0 <= k < before.len() && before[k] == step;
        assert(all[k] == before[k]);
    }
}

/// A step of a rule is one of its section.
proof fn lemma_rule_is_planned(rules: Seq<AclRule>, action: Seq<char>, r: int, step: StepView)
    requires
        0 <= r < rules.len(),
        address_steps(rules[r], action).contains(step) || tag_steps(rules[r], action).contains(
            step,
        ),
    ensures
        section_steps(rules, action).contains(step),
    decreases rules.len(),
{
    let before = section_steps(rules.drop_last(), action);
    let a = address_steps(rules.last(), action);
    let t = tag_steps(rules.last(), action);
    let all = section_steps(rules, action);
    assert(all == before + (a + t));
    if r == rules.len() - 1 {
        if a.contains(step) {
            let k = choose|k: int| 0 <= k < a.len() && a[k] == step;
            assert(all[before.len() + k] == step);
        } else {
            let k = choose|k: int| 0 <= k < t.len() && t[k] == step;
            assert(all[before.len() + a.len() + k] == step);
        }
    } else {
        lemma_rule_is_planned(rules.drop_last(), action, r, step);
        let k = choose|k: int| 0 <= k < before.len() && before[k] == step;
        assert(all[k] == step);
    }
}

/// A step of a section is one of the plan.
proof fn lemma_section_is_planned(config: Config, allow: bool, step: StepView)
    requires
        if allow {
            section_steps(config.acl.allow@, "allow"@).contains(step)
        } else {
            section_steps(config.acl.drop@, "drop"@).contains(step)
        },
    ensures
        plan(config).contains(step),
{
    let a = section_steps(config.acl.allow@, "allow"@);
    let d = section_steps(config.acl.drop@, "drop"@);
    if allow {
        let k = choose|k: int| 0 <= k < a.len() && a[k] == step;
        assert(plan(config)[k] == step);
    } else {
        let k = choose|k: int| 0 <= k < d.len() && d[k] == step;
        assert(plan(config)[a.len() + k] == step);
    }
}

/// The rules of a section and the action that they have.
pub open spec fn section(config: Config, allow: bool) -> (Seq<AclRule>, Seq<char>) {
    if allow {
        (config.acl.allow@, "allow"@)
    } else {
        (config.acl.drop@, "drop"@)
    }
}

/// Every source of a rule is planned with every destination of it.
pub proof fn every_pair_is_planned(config: Config, allow: bool, r: int, i: int, j: int)
    requires
        0 <= r < section(config, allow).0.len(),
        ({
            let rule = section(config, allow).0[r];
            &&& rule.src is Some || rule.dst is Some
            &&& 0 <= i < block_addresses(rule.src).len()
            &&& 0 <= j < block_addresses(rule.dst).len()
        }),
    ensures
        ({
            let (rules, action) = section(config, allow);
            plan(config).contains(
                pair_step(
                    rules[r],
                    action,
                    block_addresses(rules[r].src)[i],
                    block_addresses(rules[r].dst)[j],
                ),
            )
        }),
{
    let (rules, action) = section(config, allow);
    let rule = rules[r];
    let srcs = block_addresses(rule.src);
    let dsts = block_addresses(rule.dst);
    lemma_pair_is_planned(rule, action, srcs, dsts, i, j);
    let step = pair_step(rule, action, srcs[i], dsts[j]);
    lemma_rule_is_planned(rules, action, r, step);
    lemma_section_is_planned(config, allow, step);
}

/// Every pair of tags of a rule is planned.
pub proof fn every_tag_is_planned(config: Config, allow: bool, r: int, i: int, j: int)
    requires
        0 <= r < section(config, allow).0.len(),
        section(config, allow).0[r].vlan matches Some(v) && 0 <= i < v@.len() && 0 <= j
            < vlan_pairs(v@[i]).len(),
    ensures
        ({
            let (rules, action) = section(config, allow);
            plan(config).contains(
                vlan_step(rules[r], action, vlan_pairs(rules[r].vlan->0@[i])[j]),
            )
        }),
{
    let (rules, action) = section(config, allow);
    let rule = rules[r];
    let specs = rule.vlan->0@;
    lemma_tag_is_planned(rule, action, specs, i, j);
    let step = vlan_step(rule, action, vlan_pairs(specs[i])[j]);
    lemma_rule_is_planned(rules, action, r, step);
    lemma_section_is_planned(config, allow, step);
}

/// An address with a number of bits behind a slash is the address with that
/// prefix, at most 32 bits of an IPv4 and 128 of an IPv6 address; with more it is
/// refused, and so it is where the address itself is.
pub proof fn prefix_lengths_are_read(addr: Seq<char>, bits: u32)
    requires
        forall|i: int| 0 <= i < addr.len() ==> addr[i] != '/',
    ensures
        match parsed_acl_addr(addr) {
            Ok(a) => {
                &&& a.prefix is None
                &&& bits <= if a.v6 {
                    128int
                } else {
                    32
                } ==> parsed_acl_addr(addr + "/"@ + decimal(bits as int)) == Ok::<
                    AddrView,
                    Seq<char>,
                >(AddrView { prefix: Some(bits), ..a })
                &&& bits > if a.v6 {
                    128int
                } else {
                    32
                } ==> parsed_acl_addr(addr + "/"@ + decimal(bits as int)) is Err
            },
            Err(_) => parsed_acl_addr(addr + "/"@ + decimal(bits as int)) is Err,
        },
{
    reveal_strlit("/");
    let d = decimal(bits as int);
    let s = addr + "/"@ + d;
    let n = addr.len() as int;
    lemma_find(addr, '/');
    lemma_find(s, '/');
    assert(s[n] == '/');
    match find(s, '/') {
        Some(i) => {
            if i < n {
                assert(s[i] == addr[i]);
            }
            assert(i == n);
        },
        None => {},
    }
    assert(s.take(n) =~= addr);
    assert(s.skip(n + 1) =~= d);
    lemma_digits_only(bits as int, 10, ':');
    number_roundtrip(bits as int, 10, 0xffff_ffff);
    lemma_find(addr, ':');
    lemma_find(s, ':');
    assert(has(s, ':') == has(addr, ':')) by {
        match find(addr, ':') {
            Some(i) => {
                assert(s[i] == ':');
            },
            None => {
                if let Some(i) = find(s, ':') {
                    if i < n {
                        assert(s[i] == addr[i]);
                    } else if i > n {
                        assert(s[i] == d[i - n - 1]);
                    }
                }
            },
        }
    }
}

/// The protocol of a word.
pub open spec fn protocol_of_word(word: Seq<char>, proto: Proto) -> bool {
    ||| word == "tcp"@ && proto == Proto::Tcp
    ||| word == "udp"@ && proto == Proto::Udp
    ||| word == "icmp"@ && proto == Proto::Icmp
    ||| word == "icmpv6"@ && proto == Proto::Icmpv6
}

pub proof fn lemma_protocol_words(word: Seq<char>, proto: Proto)
    requires
        protocol_of_word(word, proto),
    ensures
        parsed_proto(word) == Ok::<Proto, Seq<char>>(proto),
{
    reveal_strlit("tcp");
    reveal_strlit("udp");
    reveal_strlit("icmp");
    reveal_strlit("icmpv6");
    assert(lower_text(word) =~= word);
    assert("tcp"@.len() == 3 && "tcp"@[0] == 't');
    assert("udp"@.len() == 3 && "udp"@[0] == 'u');
    assert("icmp"@.len() == 4 && "icmpv6"@.len() == 6);
}

/// A rule for any ports has the protocol of its word, TCP where it has none, and
/// names no port; its addresses, its action and its rate are as they are written.
pub proof fn rules_for_any_port_name_none(
    drops: bool,
    word: Option<Seq<char>>,
    proto: Proto,
    src: Seq<char>,
    dst: Seq<char>,
    rate: Option<u32>,
    a: AddrView,
    b: AddrView,
)
    requires
        !starts(src, "["@) && !starts(dst, "["@),
        parsed_acl_addr(src) == Ok::<AddrView, Seq<char>>(a),
        parsed_acl_addr(dst) == Ok::<AddrView, Seq<char>>(b),
        word matches Some(w) ==> protocol_of_word(w, proto),
        word is None ==> proto == Proto::Tcp,
    ensures
        parsed_rule(
            if drops {
                "drop"@
            } else {
                "allow"@
            },
            src + ":any"@,
            dst + ":any"@,
            word,
            rate,
        ) matches Ok(rule) && {
            &&& rule.action == if drops {
                AclAction::Drop
            } else {
                AclAction::Allow
            }
            &&& rule.src == a
            &&& rule.dst == b
            &&& rule.proto == proto
            &&& rule.sport is Any && rule.dport is Any
            &&& rule.tcp_flags == 0
            &&& rate matches Some(r) ==> rule.rate == r
            &&& rate is None ==> rule.rate == 0
        },
{
    lemma_words();
    if let Some(w) = word {
        lemma_protocol_words(w, proto);
    }
    planned_source_is_read(src, proto);
    planned_source_is_read(dst, proto);
}

} // verus!
