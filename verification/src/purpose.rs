//! What configurations are for, told by the texts of their rules and the bytes
//! of the maps' entries.
use vstd::prelude::*;

use crate::acl_key::{AddrView, PortSpec, Proto, RuleView};
use crate::agreement::{every_pair_is_planned, every_tag_is_planned, section};
use crate::daemon::config::{vlan_pairs, AclRule, AddrBlock, Config, VlanSpec};
use crate::daemon::contents::{applied_ends_with_the_plan, entries_after, planned, Entries};
use crate::daemon::kernel::{Kernel, WriteView};
use crate::daemon::maps::{parsed_rule, rule_write, vlan_write};
use crate::daemon::reload::{
    address_steps, applied, block_addresses, pair_steps, plan, section_steps, step_made, step_write,
    tag_steps, vlan_steps, StepView,
};
use crate::daemon::session::Attempt;
use crate::laws::address_fits;
use crate::maps::AclAction;
use crate::text::texts;

verus! {

// ---- Entries byte by byte ----

/// The first `keep` bits of a byte, the others zero.
pub open spec fn high_bits(b: u8, keep: int) -> int {
    if keep <= 0 {
        0
    } else if keep == 1 {
        b - b % 128
    } else if keep == 2 {
        b - b % 64
    } else if keep == 3 {
        b - b % 32
    } else if keep == 4 {
        b - b % 16
    } else if keep == 5 {
        b - b % 8
    } else if keep == 6 {
        b - b % 4
    } else if keep == 7 {
        b - b % 2
    } else {
        b as int
    }
}

/// The byte `i` of an address of a rule in a key: an IPv4 address stands in the
/// last four of the sixteen bytes, and only the bits of the prefix count.
pub open spec fn address_byte(a: AddrView, i: int) -> int {
    let bits = match a.prefix {
        Some(p) => p as int,
        None => if a.v6 {
            128
        } else {
            32
        },
    };
    if a.v6 {
        high_bits(a.addr[i], bits - 8 * i)
    } else if i < 12 {
        0
    } else {
        high_bits(a.addr[i - 12], bits - 8 * (i - 12))
    }
}

/// The number of a protocol.
pub open spec fn proto_code(proto: Proto) -> u8 {
    match proto {
        Proto::Tcp => 6,
        Proto::Udp => 17,
        Proto::Icmp => 1,
        Proto::Icmpv6 => 58,
        Proto::Unknown(n) => n,
    }
}

/// The protocol has ports.
pub open spec fn has_ports(proto: Proto) -> bool {
    proto != Proto::Icmp && proto != Proto::Icmpv6
}

/// The port that a rule names; a rule for a protocol without ports names none.
pub open spec fn port_number(proto: Proto, port: PortSpec) -> int {
    match port {
        PortSpec::Exact(p) => if has_ports(proto) {
            p as int
        } else {
            0
        },
        PortSpec::Any => 0,
    }
}

/// The number of bits that the key of a rule for one destination address
/// counts: 304, and 16 more for each port that it names, or 352 with flags.
pub open spec fn key_bits(rule: RuleView) -> int {
    let named = |port: PortSpec| port is Exact && has_ports(rule.proto);
    if rule.tcp_flags != 0 {
        352
    } else {
        304 + (if named(rule.dport) {
            16int
        } else {
            0
        }) + if named(rule.sport) {
            16int
        } else {
            0
        }
    }
}

/// The entry of a rule: a key of 48 bytes with the family at 4, the source at 5,
/// the destination at 21, the protocol at 37, the destination port at 38 and the
/// source port at 40, and a value of 16 bytes with the action at 0 and the rate
/// at 4; numbers lie with their low byte first.
pub proof fn rule_entry_is_laid_out(rule: RuleView)
    requires
        address_fits(rule.src) && address_fits(rule.dst),
    ensures
        rule_write(rule) matches WriteView::Update { map, key, value } && {
            &&& map == "l4_acl"@
            &&& key.len() == 48
            &&& rule.dst.prefix is None || rule.tcp_flags != 0 ==> key[0] + 256 * key[1] + 65536
                * key[2] + 16777216 * key[3] == key_bits(rule)
            &&& key[4] == if rule.src.v6 {
                6int
            } else {
                4
            }
            &&& forall|i: int| 0 <= i < 16 ==> #[trigger] key[5 + i] == address_byte(rule.src, i)
            &&& forall|i: int| 0 <= i < 16 ==> #[trigger] key[21 + i] == address_byte(rule.dst, i)
            &&& key[37] == proto_code(rule.proto)
            &&& key[38] + 256 * key[39] == port_number(rule.proto, rule.dport)
            &&& key[40] + 256 * key[41] == port_number(rule.proto, rule.sport)
            &&& forall|i: int| 42 <= i < 48 ==> #[trigger] key[i] == 0
            &&& value.len() == 16
            &&& value[0] == match rule.action {
                AclAction::Allow => 0int,
                AclAction::Drop => 1,
                AclAction::Redirect => 2,
                AclAction::Inspect => 3,
            }
            &&& value[1] == 0 && value[2] == 0 && value[3] == 0
            &&& value[4] + 256 * value[5] + 65536 * value[6] + 16777216 * value[7] == rule.rate
            &&& forall|i: int| 8 <= i < 16 ==> #[trigger] value[i] == 0
        },
{
    let key = rule.key();
    let value = rule.value();
    let src = rule.src.lpm();
    let dst = rule.dst.lpm();
    assert(src.len() == 16 && dst.len() == 16);
    assert forall|i: int| 0 <= i < 16 implies #[trigger] key[5 + i] == address_byte(
        rule.src,
        i,
    ) by {
        assert(key[5 + i] == src[i]);
    }
    assert forall|i: int| 0 <= i < 16 implies #[trigger] key[21 + i] == address_byte(
        rule.dst,
        i,
    ) by {
        assert(key[21 + i] == dst[i]);
    }
}

/// The entry of a VLAN rule: a key of 8 bytes with the outer tag at 0 and the
/// inner one at 2, and a value of 8 bytes with the action at 0 and the rate at 4.
pub proof fn vlan_entry_is_laid_out(
    outer: u16,
    inner: Option<u16>,
    action: AclAction,
    rate: Option<u32>,
)
    ensures
        vlan_write(outer, inner, action, rate) matches WriteView::Update { map, key, value } && {
            &&& map == "vlan_acl"@
            &&& key.len() == 8
            &&& key[0] + 256 * key[1] == outer
            &&& key[2] + 256 * key[3] == match inner {
                Some(i) => i as int,
                None => 0,
            }
            &&& key[4] == 0 && key[5] == 0 && key[6] == 0 && key[7] == 0
            &&& value.len() == 8
            &&& value[0] == match action {
                AclAction::Allow => 0int,
                AclAction::Drop => 1,
                AclAction::Redirect => 2,
                AclAction::Inspect => 3,
            }
            &&& value[1] == 0 && value[2] == 0 && value[3] == 0
            &&& value[4] + 256 * value[5] + 65536 * value[6] + 16777216 * value[7] == match rate {
                Some(r) => r as int,
                None => 0,
            }
        },
{
}

// ---- Plans ----

/// The block names the address: one of its list, or all of IPv4 where it has
/// none.
pub open spec fn names(block: Option<AddrBlock>, s: Seq<char>) -> bool {
    match block {
        Some(AddrBlock { addresses: Some(v), ports: _ }) => if v@.len() == 0 {
            s == "0.0.0.0/0"@
        } else {
            exists|i: int| 0 <= i < v@.len() && (#[trigger] v@[i])@ == s
        },
        _ => s == "0.0.0.0/0"@,
    }
}

/// The rule names the pair of tags; 0 is the inner one of a single tag.
pub open spec fn tags_named(vlan: Option<Vec<VlanSpec>>, outer: u16, inner: u16) -> bool {
    vlan matches Some(v) && exists|i: int|
        0 <= i < v@.len() && match #[trigger] v@[i] {
            VlanSpec::Simple(id) => outer == id && inner == 0,
            VlanSpec::QinQ { outer: o, inner: list } => outer == o && list@.contains(inner),
            VlanSpec::Empty => false,
        }
}

/// The step is one that the rule calls for: from any port of one of its sources
/// to its port of one of its destinations, any where it names none, under its
/// protocol, TCP where it names none; or for one of its tags. The step has the
/// action of the rule's section and the rule's rate, 0 where it names none.
pub open spec fn called_for(rule: AclRule, action: Seq<char>, step: StepView) -> bool {
    let rate = match rule.rate {
        Some(r) => r,
        None => 0,
    };
    match step {
        StepView::Rule { action: a, src, dst, proto, rate: r } => {
            &&& a == action
            &&& r == rate
            &&& rule.src is Some || rule.dst is Some
            &&& exists|s: Seq<char>, d: Seq<char>|
                {
                    &&& #[trigger] names(rule.src, s)
                    &&& #[trigger] names(rule.dst, d)
                    &&& src == s + ":any"@
                    &&& match rule.dst {
                        Some(AddrBlock { addresses: _, ports: Some(p) }) => dst == d + ":"@
                            + p.number@ && proto == p.proto@,
                        _ => dst == d + ":"@ + "any"@ && proto == "tcp"@,
                    }
                }
        },
        StepView::Vlan { outer, inner, action: a, rate: r } => {
            &&& a == action
            &&& r == rate
            &&& tags_named(rule.vlan, outer, inner)
        },
    }
}

/// The step is one that some rule of the configuration calls for: "allow" for
/// the rules of its first list, "drop" for those of its second.
pub open spec fn configured(config: Config, step: StepView) -> bool {
    ||| exists|r: int|
        0 <= r < config.acl.allow@.len() && called_for(
            #[trigger] config.acl.allow@[r],
            "allow"@,
            step,
        )
    ||| exists|r: int|
        0 <= r < config.acl.drop@.len() && called_for(#[trigger] config.acl.drop@[r], "drop"@, step)
}

proof fn lemma_named(block: Option<AddrBlock>, s: Seq<char>) -> (i: int)
    requires
        names(block, s),
    ensures
        0 <= i < block_addresses(block).len(),
        block_addresses(block)[i] == s,
{
    match block {
        Some(AddrBlock { addresses: Some(v), ports: _ }) => if v@.len() > 0 {
            let i = choose|i: int| 0 <= i < v@.len() && (#[trigger] v@[i])@ == s;
            assert(texts(v@)[i] == v@[i]@);
            i
        } else {
            0
        },
        _ => 0,
    }
}

proof fn lemma_names(block: Option<AddrBlock>, i: int)
    requires
        0 <= i < block_addresses(block).len(),
    ensures
        names(block, block_addresses(block)[i]),
{
    match block {
        Some(AddrBlock { addresses: Some(v), ports: _ }) => if v@.len() > 0 {
            assert(texts(v@)[i] == v@[i]@);
        },
        _ => {},
    }
}

/// Every step that a rule of the configuration calls for is planned: a rule of
/// the drop list as a rule that drops, one of the allow list as one that allows.
pub proof fn configured_steps_are_planned(config: Config, step: StepView)
    requires
        configured(config, step),
    ensures
        plan(config).contains(step),
{
    let allow = exists|r: int|
        0 <= r < config.acl.allow@.len() && called_for(
            #[trigger] config.acl.allow@[r],
            "allow"@,
            step,
        );
    let (rules, action) = section(config, allow);
    let r = choose|r: int| 0 <= r < rules.len() && called_for(#[trigger] rules[r], action, step);
    let rule = rules[r];
    assert(called_for(rule, action, step));
    match step {
        StepView::Rule { action: a, src, dst, proto, rate } => {
            let (s, d) = choose|s: Seq<char>, d: Seq<char>|
                {
                    &&& #[trigger] names(rule.src, s)
                    &&& #[trigger] names(rule.dst, d)
                    &&& src == s + ":any"@
                    &&& match rule.dst {
                        Some(AddrBlock { addresses: _, ports: Some(p) }) => dst == d + ":"@
                            + p.number@ && proto == p.proto@,
                        _ => dst == d + ":"@ + "any"@ && proto == "tcp"@,
                    }
                };
            let i = lemma_named(rule.src, s);
            let j = lemma_named(rule.dst, d);
            every_pair_is_planned(config, allow, r, i, j);
        },
        StepView::Vlan { outer, inner, action: a, rate } => {
            let v = rule.vlan->0@;
            let i = choose|i: int|
                0 <= i < v.len() && match #[trigger] v[i] {
                    VlanSpec::Simple(id) => outer == id && inner == 0,
                    VlanSpec::QinQ { outer: o, inner: list } => outer == o && list@.contains(inner),
                    VlanSpec::Empty => false,
                };
            match v[i] {
                VlanSpec::Simple(id) => {
                    every_tag_is_planned(config, allow, r, i, 0);
                },
                VlanSpec::QinQ { outer: o, inner: list } => {
                    let j = choose|j: int| 0 <= j < list@.len() && list@[j] == inner;
                    every_tag_is_planned(config, allow, r, i, j);
                },
                VlanSpec::Empty => {},
            }
        },
    }
}

proof fn lemma_pairs_called_for(
    rule: AclRule,
    action: Seq<char>,
    srcs: Seq<Seq<char>>,
    n: int,
)
    requires
        rule.src is Some || rule.dst is Some,
        forall|i: int| 0 <= i < srcs.len() ==> names(rule.src, #[trigger] srcs[i]),
        0 <= n < pair_steps(rule, action, srcs, block_addresses(rule.dst)).len(),
    ensures
        called_for(
            rule,
            action,
            pair_steps(rule, action, srcs, block_addresses(rule.dst))[n],
        ),
    decreases srcs.len(),
{
    let dsts = block_addresses(rule.dst);
    let before = pair_steps(rule, action, srcs.drop_last(), dsts);
    if n < before.len() {
        assert forall|i: int| 0 <= i < srcs.drop_last().len() implies names(
            rule.src,
            #[trigger] srcs.drop_last()[i],
        ) by {
            assert(srcs.drop_last()[i] == srcs[i]);
        }
        lemma_pairs_called_for(rule, action, srcs.drop_last(), n);
        assert(pair_steps(rule, action, srcs, dsts)[n] == before[n]);
    } else {
        let j = n - before.len();
        lemma_names(rule.dst, j);
        assert(names(rule.src, srcs[srcs.len() - 1]));
        assert(names(rule.dst, dsts[j]));
    }
}

proof fn lemma_tags_called_for(rule: AclRule, action: Seq<char>, specs: Seq<VlanSpec>, n: int)
    requires
        rule.vlan is Some,
        specs.len() <= rule.vlan->0@.len(),
        specs == rule.vlan->0@.take(specs.len() as int),
        0 <= n < vlan_steps(rule, action, specs).len(),
    ensures
        called_for(rule, action, vlan_steps(rule, action, specs)[n]),
    decreases specs.len(),
{
    let before = vlan_steps(rule, action, specs.drop_last());
    let v = rule.vlan->0@;
    if n < before.len() {
        assert(specs.drop_last() =~= v.take(specs.len() - 1));
        lemma_tags_called_for(rule, action, specs.drop_last(), n);
        assert(vlan_steps(rule, action, specs)[n] == before[n]);
    } else {
        let j = n - before.len();
        let last = specs[specs.len() - 1];
        assert(last == v[specs.len() - 1]);
        let pairs = vlan_pairs(last);
        match last {
            VlanSpec::QinQ { outer, inner } => {
                assert(inner@.contains(inner@[j]));
            },
            _ => {},
        }
    }
}

proof fn lemma_section_called_for(rules: Seq<AclRule>, action: Seq<char>, n: int) -> (r: int)
    requires
        0 <= n < section_steps(rules, action).len(),
    ensures
        0 <= r < rules.len(),
        called_for(rules[r], action, section_steps(rules, action)[n]),
    decreases rules.len(),
{
    let before = section_steps(rules.drop_last(), action);
    let rule = rules.last();
    let a = address_steps(rule, action);
    let t = tag_steps(rule, action);
    if n < before.len() {
        let r = lemma_section_called_for(rules.drop_last(), action, n);
        assert(section_steps(rules, action)[n] == before[n]);
        assert(rules.drop_last()[r] == rules[r]);
        r
    } else if n < before.len() + a.len() {
        let srcs = block_addresses(rule.src);
        assert forall|i: int| 0 <= i < srcs.len() implies names(
            rule.src,
            #[trigger] srcs[i],
        ) by {
            lemma_names(rule.src, i);
        }
        lemma_pairs_called_for(rule, action, srcs, n - before.len());
        assert(section_steps(rules, action)[n] == a[n - before.len()]);
        rules.len() - 1
    } else {
        let specs = rule.vlan->0@;
        assert(specs =~= specs.take(specs.len() as int));
        lemma_tags_called_for(rule, action, specs, n - before.len() - a.len());
        assert(section_steps(rules, action)[n] == t[n - before.len() - a.len()]);
        rules.len() - 1
    }
}

/// Every step of the plan is one that a rule of the configuration calls for,
/// and those that allow come before those that drop.
pub proof fn planned_steps_are_configured(config: Config, n: int)
    requires
        0 <= n < plan(config).len(),
    ensures
        configured(config, plan(config)[n]),
        ({
            let split = section_steps(config.acl.allow@, "allow"@).len();
            let action = match plan(config)[n] {
                StepView::Rule { action, .. } => action,
                StepView::Vlan { action, .. } => action,
            };
            action == if n < split {
                "allow"@
            } else {
                "drop"@
            }
        }),
{
    let a = section_steps(config.acl.allow@, "allow"@);
    if n < a.len() {
        let r = lemma_section_called_for(config.acl.allow@, "allow"@, n);
        assert(called_for(config.acl.allow@[r], "allow"@, plan(config)[n]));
    } else {
        let r = lemma_section_called_for(config.acl.drop@, "drop"@, n - a.len());
        assert(called_for(config.acl.drop@[r], "drop"@, plan(config)[n]));
    }
}

// ---- What a loaded configuration leaves ----

/// The step writes the value under the key of the map.
pub open spec fn step_sets(
    step: StepView,
    map: Seq<char>,
    key: Seq<u8>,
    value: Seq<u8>,
) -> bool {
    step_write(step) == Ok::<WriteView, Seq<char>>(WriteView::Update { map, key, value })
}

/// All steps that write the key write this value.
pub open spec fn agreed(
    steps: Seq<StepView>,
    map: Seq<char>,
    key: Seq<u8>,
    value: Seq<u8>,
) -> bool {
    forall|n: int, v: Seq<u8>|
        0 <= n < steps.len() && #[trigger] step_sets(steps[n], map, key, v) ==> v == value
}

proof fn lemma_planned_entry(
    c: Entries,
    map: Seq<char>,
    steps: Seq<StepView>,
    n: int,
    key: Seq<u8>,
    value: Seq<u8>,
)
    requires
        0 <= n < steps.len(),
        step_sets(steps[n], map, key, value),
        agreed(steps, map, key, value),
    ensures
        planned(c, map, steps).contains_key(key),
        planned(c, map, steps)[key] == value,
    decreases steps.len(),
{
    let rest = steps.drop_last();
    assert forall|m: int, v: Seq<u8>|
        0 <= m < rest.len() && #[trigger] step_sets(rest[m], map, key, v) implies v == value by {
        assert(rest[m] == steps[m]);
        assert(step_sets(steps[m], map, key, v));
    }
    if n < rest.len() {
        assert(rest[n] == steps[n]);
        lemma_planned_entry(c, map, rest, n, key, value);
        match step_write(steps.last()) {
            Ok(WriteView::Update { map: m, key: k, value: v }) => {
                if m == map && k == key {
                    assert(step_sets(steps[steps.len() - 1], map, key, v));
                }
            },
            _ => {},
        }
    }
}

/// A configuration that was loaded leaves an entry for each source and each
/// destination of each of its rules: the one of the rule that the texts name,
/// with 1 as the first byte of its value for a rule of the drop list and 0 for
/// one of the allow list, and the rate behind it. Where other rules of the
/// configuration have the same key, they say the same.
pub proof fn loaded_rules_are_in_the_acl<K: Kernel>(
    k: &K,
    config: Config,
    done: Seq<Attempt>,
    step: StepView,
    c: Entries,
)
    requires
        applied(k, config, done, Ok(())),
        configured(config, step),
        step is Rule,
    ensures
        exists|rule: RuleView|
            {
                &&& #[trigger] parsed_rule(
                    step->Rule_action,
                    step->Rule_src,
                    step->Rule_dst,
                    Some(step->Rule_proto),
                    Some(step->Rule_rate),
                ) == Ok::<RuleView, Seq<char>>(rule)
                &&& agreed(plan(config), "l4_acl"@, rule.key(), rule.value()) ==> {
                    let after = entries_after(c, "l4_acl"@, done);
                    &&& after.contains_key(rule.key())
                    &&& after[rule.key()].len() == 16
                    &&& step->Rule_action == "drop"@ ==> after[rule.key()][0] == 1
                    &&& step->Rule_action == "allow"@ ==> after[rule.key()][0] == 0
                    &&& after[rule.key()][4] + 256 * after[rule.key()][5] + 65536
                        * after[rule.key()][6] + 16777216 * after[rule.key()][7]
                        == step->Rule_rate
                }
            },
{
    configured_steps_are_planned(config, step);
    let steps = plan(config);
    let n = choose|n: int| 0 <= n < steps.len() && steps[n] == step;
    let (before, part) = applied_ends_with_the_plan(k, config, done, c, "l4_acl"@);
    assert(step_made(k, steps[n], part[n]));
    reveal(step_made);
    assert(step_write(step) is Ok);
    let rule = parsed_rule(
        step->Rule_action,
        step->Rule_src,
        step->Rule_dst,
        Some(step->Rule_proto),
        Some(step->Rule_rate),
    )->Ok_0;
    crate::daemon::contents::lemma_map_names();
    lemma_rule_value(rule);
    reveal_strlit("drop");
    reveal_strlit("allow");
    assert("drop"@.len() == 4 && "allow"@.len() == 5);
    if agreed(steps, "l4_acl"@, rule.key(), rule.value()) {
        assert(step_sets(steps[n], "l4_acl"@, rule.key(), rule.value()));
        lemma_planned_entry(before, "l4_acl"@, steps, n, rule.key(), rule.value());
    }
}

proof fn lemma_rule_value(rule: RuleView)
    ensures
        rule.value().len() == 16,
        rule.action == AclAction::Drop ==> rule.value()[0] == 1,
        rule.action == AclAction::Allow ==> rule.value()[0] == 0,
        rule.value()[4] + 256 * rule.value()[5] + 65536 * rule.value()[6] + 16777216
            * rule.value()[7] == rule.rate,
{
}

/// The bytes are those of the entry for a pair of tags.
pub open spec fn tag_entry(
    outer: u16,
    inner: u16,
    action: u8,
    rate: u32,
    key: Seq<u8>,
    value: Seq<u8>,
) -> bool {
    &&& key.len() == 8
    &&& key[0] + 256 * key[1] == outer
    &&& key[2] + 256 * key[3] == inner
    &&& key[4] == 0 && key[5] == 0 && key[6] == 0 && key[7] == 0
    &&& value.len() == 8
    &&& value[0] == action
    &&& value[1] == 0 && value[2] == 0 && value[3] == 0
    &&& value[4] + 256 * value[5] + 65536 * value[6] + 16777216 * value[7] == rate
}

proof fn lemma_same_two(a: u8, b: u8, c: u8, d: u8)
    requires
        a + 256 * b == c + 256 * d,
    ensures
        a == c && b == d,
{
}

proof fn lemma_same_four(a: u8, b: u8, c: u8, d: u8, e: u8, f: u8, g: u8, h: u8)
    requires
        a + 256 * b + 65536 * c + 16777216 * d == e + 256 * f + 65536 * g + 16777216 * h,
    ensures
        a == e && b == f && c == g && d == h,
{
    let low = a + 256 * b;
    let high = c + 256 * d;
    let other_low = e + 256 * f;
    let other_high = g + 256 * h;
    assert(low + 65536 * high == other_low + 65536 * other_high);
    assert(0 <= low < 65536 && 0 <= other_low < 65536);
    assert(high == other_high);
    lemma_same_two(a, b, e, f);
    lemma_same_two(c, d, g, h);
}

#[verifier::spinoff_prover]
proof fn lemma_tag_entry(
    outer: u16,
    inner: u16,
    action: AclAction,
    rate: u32,
    key: Seq<u8>,
    value: Seq<u8>,
)
    requires
        tag_entry(
            outer,
            inner,
            match action {
                AclAction::Allow => 0u8,
                AclAction::Drop => 1,
                AclAction::Redirect => 2,
                AclAction::Inspect => 3,
            },
            rate,
            key,
            value,
        ),
    ensures
        vlan_write(outer, Some(inner), action, Some(rate)) == (WriteView::Update {
            map: "vlan_acl"@,
            key,
            value,
        }),
{
    vlan_entry_is_laid_out(outer, Some(inner), action, Some(rate));
    let k = vlan_write(outer, Some(inner), action, Some(rate))->Update_key;
    let v = vlan_write(outer, Some(inner), action, Some(rate))->value;
    lemma_same_two(k[0], k[1], key[0], key[1]);
    lemma_same_two(k[2], k[3], key[2], key[3]);
    assert(k =~= key);
    lemma_same_four(v[4], v[5], v[6], v[7], value[4], value[5], value[6], value[7]);
    assert(v =~= value);
}

/// A configuration that was loaded leaves an entry for each of its tags: outer
/// and inner tag in the key, and in the value the rate and 1 for a rule of the
/// drop list, 0 for one of the allow list.
pub proof fn loaded_tags_are_in_the_acl<K: Kernel>(
    k: &K,
    config: Config,
    done: Seq<Attempt>,
    outer: u16,
    inner: u16,
    drops: bool,
    rate: u32,
    c: Entries,
    key: Seq<u8>,
    value: Seq<u8>,
)
    requires
        applied(k, config, done, Ok(())),
        configured(
            config,
            (StepView::Vlan {
                outer,
                inner,
                action: if drops {
                    "drop"@
                } else {
                    "allow"@
                },
                rate,
            }),
        ),
        tag_entry(
            outer,
            inner,
            if drops {
                1u8
            } else {
                0
            },
            rate,
            key,
            value,
        ),
        agreed(plan(config), "vlan_acl"@, key, value),
    ensures
        entries_after(c, "vlan_acl"@, done).contains_key(key),
        entries_after(c, "vlan_acl"@, done)[key] == value,
{
    let action = if drops {
        "drop"@
    } else {
        "allow"@
    };
    let step = StepView::Vlan { outer, inner, action, rate };
    configured_steps_are_planned(config, step);
    let steps = plan(config);
    let n = choose|n: int| 0 <= n < steps.len() && steps[n] == step;
    let (before, part) = applied_ends_with_the_plan(k, config, done, c, "vlan_acl"@);
    lemma_tag_entry(
        outer,
        inner,
        if drops {
            AclAction::Drop
        } else {
            AclAction::Allow
        },
        rate,
        key,
        value,
    );
    assert(step_sets(steps[n], "vlan_acl"@, key, value)) by {
        reveal_strlit("drop");
        reveal_strlit("allow");
        assert("drop"@.len() == 4 && "allow"@.len() == 5);
    }
    lemma_planned_entry(before, "vlan_acl"@, steps, n, key, value);
    crate::daemon::contents::lemma_map_names();
}

} // verus!
