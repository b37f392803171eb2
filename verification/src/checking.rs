//! Which configuration files pass the check, and where it finds what is wrong.
use vstd::prelude::*;

use crate::ctl::check::{
    addresses_error, block_error, element_error, elements_error, family_error, finding, ports_error,
    rule_error, rule_place, rules_error, section_error, FindingView,
};
use crate::daemon::config::{
    addr_block, address_item, address_items, addresses_in, list_texts, AddrBlock, IpList, PortSpec,
};
use crate::text::{decimal, texts};
use crate::yaml::{value_under, YamlView};

verus! {

/// A text or a number, tagged or not.
pub open spec fn plain_value(y: YamlView) -> bool {
    y.untagged() is Str || y.untagged() is Number
}

/// An item of an address list: a text, a number, or a list of one of them.
pub open spec fn good_item(y: YamlView) -> bool {
    match y {
        YamlView::Str(_) => true,
        YamlView::Number(_) => true,
        YamlView::Sequence(inner) => inner.len() == 1 && plain_value(inner[0]),
        _ => false,
    }
}

pub open spec fn good_addresses(y: YamlView) -> bool {
    match y.sequence() {
        Some(s) => forall|i: int| 0 <= i < s.len() ==> good_item(#[trigger] s[i]),
        None => y is Str || y is Number,
    }
}

/// A mapping with a list of addresses.
pub open spec fn good_family(y: YamlView) -> bool {
    y.mapping() matches Some(m) && value_under(m, "addresses"@) matches Some(l) && l.sequence()
        is Some
}

/// A mapping with a number and the text of a protocol.
pub open spec fn good_ports(y: YamlView) -> bool {
    y.mapping() matches Some(m) && (value_under(m, "number"@) matches Some(n) && plain_value(n))
        && (value_under(m, "proto"@) matches Some(p) && p.untagged() is Str)
}

/// A block of addresses in any of its forms, with or without ports.
pub open spec fn good_block(y: YamlView) -> bool {
    y.mapping() matches Some(m) && (value_under(m, "addresses"@) matches Some(v) ==> good_addresses(
        v,
    )) && (value_under(m, "ipv4"@) matches Some(v) ==> good_family(v)) && (value_under(
        m,
        "ipv6"@,
    ) matches Some(v) ==> good_family(v)) && (value_under(m, "ports"@) matches Some(v)
        ==> good_ports(v))
}

/// A rule with a source, a destination and tags, or without any of them.
pub open spec fn good_rule(y: YamlView) -> bool {
    y.mapping() matches Some(m) && (value_under(m, "vlan"@) matches Some(v) ==> v.sequence()
        is Some) && (value_under(m, "src"@) matches Some(v) ==> good_block(v)) && (value_under(
        m,
        "dst"@,
    ) matches Some(v) ==> good_block(v))
}

/// A list of rules that are all good.
pub open spec fn good_section(acl: Seq<(YamlView, YamlView)>, name: Seq<char>) -> bool {
    value_under(acl, name) matches Some(v) && v.sequence() matches Some(s) && forall|i: int|
        0 <= i < s.len() ==> good_rule(#[trigger] s[i])
}

/// The message tells the place.
pub open spec fn tells(message: Seq<char>, place: Seq<char>) -> bool {
    message.len() > place.len() && message.take(place.len() as int) == place
}

proof fn lemma_tells(at: Seq<char>, more: Seq<char>)
    requires
        more.len() > 0,
    ensures
        tells(at + more, at),
{
    assert((at + more).take(at.len() as int) =~= at);
}

proof fn lemma_tells_inside(message: Seq<char>, at: Seq<char>, more: Seq<char>)
    requires
        tells(message, at + more),
    ensures
        tells(message, at),
{
    assert(message.take(at.len() as int) =~= message.take((at + more).len() as int).take(
        at.len() as int,
    ));
    assert((at + more).take(at.len() as int) =~= at);
}

proof fn lemma_messages()
    ensures
        ".addresses contains invalid nested element"@.len() > 0,
        ".addresses must contain strings or single-element sequences"@.len() > 0,
        ".addresses must be a sequence"@.len() > 0,
        " must be a mapping"@.len() > 0,
        ".number must be a string or number"@.len() > 0,
        ".proto must be a string"@.len() > 0,
        ".vlan must be a sequence"@.len() > 0,
{
    reveal_strlit(".addresses contains invalid nested element");
    reveal_strlit(".addresses must contain strings or single-element sequences");
    reveal_strlit(".addresses must be a sequence");
    reveal_strlit(" must be a mapping");
    reveal_strlit(".number must be a string or number");
    reveal_strlit(".proto must be a string");
    reveal_strlit(".vlan must be a sequence");
}

proof fn lemma_item(y: YamlView, at: Seq<char>)
    ensures
        element_error(y, at) is None <==> good_item(y),
        element_error(y, at) matches Some(m) ==> tells(m, at),
{
    lemma_messages();
    lemma_tells(at, ".addresses contains invalid nested element"@);
    lemma_tells(at, ".addresses must contain strings or single-element sequences"@);
}

proof fn lemma_items(s: Seq<YamlView>, at: Seq<char>)
    ensures
        elements_error(s, at) is None <==> forall|i: int|
            0 <= i < s.len() ==> good_item(#[trigger] s[i]),
        elements_error(s, at) matches Some(m) ==> tells(m, at),
    decreases s.len(),
{
    if s.len() > 0 {
        let rest = s.drop_last();
        lemma_items(rest, at);
        lemma_item(s.last(), at);
        if elements_error(s, at) is None {
            assert forall|i: int| 0 <= i < s.len() implies good_item(#[trigger] s[i]) by {
                if i < rest.len() {
                    assert(good_item(rest[i]));
                }
            }
        } else {
            assert(!(forall|i: int| 0 <= i < s.len() ==> good_item(#[trigger] s[i]))) by {
                if elements_error(rest, at) is None {
                    assert(!good_item(s[s.len() - 1]));
                } else {
                    let i = choose|i: int| 0 <= i < rest.len() && !good_item(#[trigger] rest[i]);
                    assert(!good_item(s[i]));
                }
            }
        }
    }
}

proof fn lemma_parts(y: YamlView, at: Seq<char>)
    ensures
        addresses_error(Some(y), at) is None <==> good_addresses(y),
        addresses_error(Some(y), at) matches Some(m) ==> tells(m, at),
        family_error(Some(y), at) is None <==> good_family(y),
        family_error(Some(y), at) matches Some(m) ==> tells(m, at),
        ports_error(Some(y), at) is None <==> good_ports(y),
        ports_error(Some(y), at) matches Some(m) ==> tells(m, at),
{
    lemma_messages();
    lemma_tells(at, ".addresses must be a sequence"@);
    lemma_tells(at, " must be a mapping"@);
    lemma_tells(at, ".number must be a string or number"@);
    lemma_tells(at, ".proto must be a string"@);
    lemma_item(y, at);
    if let Some(s) = y.sequence() {
        lemma_items(s, at);
    }
}

proof fn lemma_block(y: YamlView, at: Seq<char>)
    ensures
        block_error(Some(y), at) is None <==> good_block(y),
        block_error(Some(y), at) matches Some(m) ==> tells(m, at),
{
    lemma_messages();
    lemma_tells(at, " must be a mapping"@);
    if let Some(m) = y.mapping() {
        if let Some(v) = value_under(m, "addresses"@) {
            lemma_parts(v, at);
        }
        if let Some(v) = value_under(m, "ipv4"@) {
            lemma_parts(v, at + ".ipv4"@);
            if let Some(e) = family_error(Some(v), at + ".ipv4"@) {
                lemma_tells_inside(e, at, ".ipv4"@);
            }
        }
        if let Some(v) = value_under(m, "ipv6"@) {
            lemma_parts(v, at + ".ipv6"@);
            if let Some(e) = family_error(Some(v), at + ".ipv6"@) {
                lemma_tells_inside(e, at, ".ipv6"@);
            }
        }
        if let Some(v) = value_under(m, "ports"@) {
            lemma_parts(v, at + ".ports"@);
            if let Some(e) = ports_error(Some(v), at + ".ports"@) {
                lemma_tells_inside(e, at, ".ports"@);
            }
        }
    }
}

proof fn lemma_rule(y: YamlView, at: Seq<char>)
    ensures
        rule_error(y, at) is None <==> good_rule(y),
        rule_error(y, at) matches Some(m) ==> tells(m, at),
{
    lemma_messages();
    lemma_tells(at, " must be a mapping"@);
    lemma_tells(at, ".vlan must be a sequence"@);
    if let Some(m) = y.mapping() {
        if let Some(v) = value_under(m, "src"@) {
            lemma_block(v, at + ".src"@);
            if let Some(e) = block_error(Some(v), at + ".src"@) {
                lemma_tells_inside(e, at, ".src"@);
            }
        }
        if let Some(v) = value_under(m, "dst"@) {
            lemma_block(v, at + ".dst"@);
            if let Some(e) = block_error(Some(v), at + ".dst"@) {
                lemma_tells_inside(e, at, ".dst"@);
            }
        }
    }
}

/// The rule at `i` is the first that is not good.
pub open spec fn first_bad(rules: Seq<YamlView>, i: int) -> bool {
    &&& 0 <= i < rules.len()
    &&& !good_rule(rules[i])
    &&& forall|j: int| 0 <= j < i ==> good_rule(#[trigger] rules[j])
}

proof fn lemma_rules(rules: Seq<YamlView>, section: Seq<char>)
    ensures
        match rules_error(rules, section) {
            None => forall|i: int| 0 <= i < rules.len() ==> good_rule(#[trigger] rules[i]),
            Some(e) => exists|i: int|
                #[trigger] first_bad(rules, i) && tells(
                    e,
                    "acl."@ + section + "["@ + decimal(i) + "]"@,
                ),
        },
    decreases rules.len(),
{
    if rules.len() > 0 {
        let rest = rules.drop_last();
        lemma_rules(rest, section);
        let n = rules.len() - 1;
        lemma_rule(rules.last(), rule_place(section, n));
        match rules_error(rest, section) {
            None => {
                assert forall|i: int| 0 <= i < n implies good_rule(#[trigger] rules[i]) by {
                    assert(good_rule(rest[i]));
                }
                if rules_error(rules, section) is Some {
                    assert(first_bad(rules, n));
                }
            },
            Some(e) => {
                let i = choose|i: int|
                    #[trigger] first_bad(rest, i) && tells(
                        e,
                        "acl."@ + section + "["@ + decimal(i) + "]"@,
                    );
                assert forall|j: int| 0 <= j < i implies good_rule(#[trigger] rules[j]) by {
                    assert(good_rule(rest[j]));
                }
                assert(rules[i] == rest[i]);
                assert(first_bad(rules, i));
            },
        }
    }
}

/// A mapping with the four sections, whose `acl` section has two good lists.
pub open spec fn good_file(y: YamlView) -> bool {
    &&& y.mapping() matches Some(m)
    &&& value_under(m, "logging"@) is Some
    &&& value_under(m, "rate_limit"@) is Some
    &&& value_under(m, "monitoring"@) is Some
    &&& value_under(m, "acl"@) matches Some(a)
    &&& a.mapping() matches Some(acl)
    &&& good_section(acl, "allow"@)
    &&& good_section(acl, "drop"@)
}

/// A file passes the check exactly if it is a mapping with the four sections,
/// its `acl` section a mapping with two lists, `allow` and `drop`, of good rules.
pub proof fn good_files_are_valid(y: YamlView)
    ensures
        finding(y) is Valid <==> good_file(y),
{
    if let Some(m) = y.mapping() {
        if let Some(a) = value_under(m, "acl"@) {
            if let Some(acl) = a.mapping() {
                lemma_section(acl, "allow"@);
                lemma_section(acl, "drop"@);
            }
        }
    }
}

proof fn lemma_section(acl: Seq<(YamlView, YamlView)>, name: Seq<char>)
    ensures
        section_error(acl, name) is None <==> good_section(acl, name),
{
    if let Some(v) = value_under(acl, name) {
        if let Some(s) = v.sequence() {
            lemma_rules(s, name);
            if section_error(acl, name) is Some {
                let i = choose|i: int| #[trigger] first_bad(s, i);
                assert(!good_rule(s[i]));
            }
        }
    }
}

/// A file without one of the sections is said to miss it, the first in the order
/// `acl`, `logging`, `rate_limit` and `monitoring`.
pub proof fn missing_sections_are_named(y: YamlView, m: Seq<(YamlView, YamlView)>)
    requires
        y.mapping() == Some(m),
    ensures
        value_under(m, "acl"@) is None ==> finding(y) == FindingView::Missing(
            "Missing required section: "@ + "acl"@,
        ),
        value_under(m, "acl"@) is Some && value_under(m, "logging"@) is None ==> finding(y)
            == FindingView::Missing("Missing required section: "@ + "logging"@),
        value_under(m, "acl"@) is Some && value_under(m, "logging"@) is Some && value_under(
            m,
            "rate_limit"@,
        ) is None ==> finding(y) == FindingView::Missing(
            "Missing required section: "@ + "rate_limit"@,
        ),
        value_under(m, "acl"@) is Some && value_under(m, "logging"@) is Some && value_under(
            m,
            "rate_limit"@,
        ) is Some && value_under(m, "monitoring"@) is None ==> finding(y) == FindingView::Missing(
            "Missing required section: "@ + "monitoring"@,
        ),
{
}

/// What is wrong in a file with all sections is told with the place of the first
/// rule that is not good, one to be allowed before one to be dropped.
pub proof fn first_bad_rule_is_told(
    y: YamlView,
    m: Seq<(YamlView, YamlView)>,
    acl: Seq<(YamlView, YamlView)>,
    allow: Seq<YamlView>,
    drop: Seq<YamlView>,
    i: int,
)
    requires
        y.mapping() == Some(m),
        value_under(m, "logging"@) is Some && value_under(m, "rate_limit"@) is Some,
        value_under(m, "monitoring"@) is Some,
        value_under(m, "acl"@) matches Some(a) && a.mapping() == Some(acl),
        value_under(acl, "allow"@) matches Some(v) && v.sequence() == Some(allow),
        value_under(acl, "drop"@) matches Some(v) && v.sequence() == Some(drop),
    ensures
        first_bad(allow, i) ==> (finding(y) matches FindingView::Wrong(e) && tells(
            e,
            "acl."@ + "allow"@ + "["@ + decimal(i) + "]"@,
        )),
        good_section(acl, "allow"@) && first_bad(drop, i) ==> (
        finding(y) matches FindingView::Wrong(e) && tells(
            e,
            "acl."@ + "drop"@ + "["@ + decimal(i) + "]"@,
        )),
{
    lemma_section(acl, "allow"@);
    lemma_rules(allow, "allow"@);
    lemma_rules(drop, "drop"@);
    if first_bad(allow, i) {
        let e = rules_error(allow, "allow"@)->0;
        assert(!good_rule(allow[i]));
        let k = choose|k: int|
            #[trigger] first_bad(allow, k) && tells(
                e,
                "acl."@ + "allow"@ + "["@ + decimal(k) + "]"@,
            );
        assert(!good_rule(allow[k]));
        assert(k == i);
    }
    if good_section(acl, "allow"@) && first_bad(drop, i) {
        let e = rules_error(drop, "drop"@)->0;
        assert(!good_rule(drop[i]));
        let k = choose|k: int|
            #[trigger] first_bad(drop, k) && tells(
                e,
                "acl."@ + "drop"@ + "["@ + decimal(k) + "]"@,
            );
        assert(!good_rule(drop[k]));
        assert(k == i);
    }
}

// ---- Addresses ----

/// The item stands for the text: it is the text or the number, or a list of just
/// that.
pub open spec fn stands_for(y: YamlView, text: Seq<char>) -> bool {
    match y {
        YamlView::Str(s) => s == text,
        YamlView::Number(n) => n == text,
        YamlView::Sequence(inner) => inner.len() == 1 && (inner[0] == YamlView::Str(text)
            || inner[0] == YamlView::Number(text)),
        _ => false,
    }
}

/// The item stands for some text.
pub open spec fn readable(y: YamlView) -> bool {
    exists|t: Seq<char>| stands_for(y, t)
}

proof fn lemma_addresses(s: Seq<YamlView>)
    ensures
        address_items(s) matches Ok(v) ==> v.len() == s.len() && forall|i: int|
            0 <= i < s.len() ==> stands_for(s[i], #[trigger] v[i]),
        address_items(s) is Err ==> exists|i: int|
            0 <= i < s.len() && address_item(#[trigger] s[i]) is Err,
    decreases s.len(),
{
    if s.len() > 0 {
        let rest = s.drop_last();
        lemma_addresses(rest);
        match address_items(rest) {
            Err(_) => {
                let i = choose|i: int|
                    0 <= i < rest.len() && address_item(#[trigger] rest[i]) is Err;
                assert(address_item(s[i]) is Err);
            },
            Ok(before) => {
                assert(s.last() == s[s.len() - 1]);
                if let Ok(v) = address_items(s) {
                    assert forall|i: int| 0 <= i < s.len() implies stands_for(
                        s[i],
                        #[trigger] v[i],
                    ) by {
                        if i < rest.len() {
                            assert(stands_for(rest[i], before[i]));
                        }
                    }
                }
            },
        }
    }
}

/// A list of addresses is read item by item, in its order, and one text as a list
/// of itself. A list in which every item stands for a text is read; any other
/// list is refused, and so is anything that is no list.
pub proof fn addresses_are_read_in_order(y: YamlView)
    ensures
        y matches YamlView::Str(s) ==> addresses_in(y) == Ok::<Seq<Seq<char>>, Seq<char>>(seq![s]),
        y.sequence() matches Some(s) ==> {
            &&& addresses_in(y) matches Ok(v) ==> v.len() == s.len() && forall|i: int|
                0 <= i < s.len() ==> stands_for(s[i], #[trigger] v[i])
            &&& addresses_in(y) is Ok <==> forall|i: int|
                0 <= i < s.len() ==> readable(#[trigger] s[i])
        },
        y !is Str && y.sequence() is None ==> addresses_in(y) is Err,
{
    if let Some(s) = y.sequence() {
        lemma_addresses(s);
        match addresses_in(y) {
            Ok(v) => {
                assert forall|i: int| 0 <= i < s.len() implies readable(#[trigger] s[i]) by {
                    assert(stands_for(s[i], v[i]));
                }
            },
            Err(_) => {
                let i = choose|i: int| 0 <= i < s.len() && address_item(#[trigger] s[i]) is Err;
                assert(!readable(s[i])) by {
                    if readable(s[i]) {
                        let t = choose|t: Seq<char>| stands_for(s[i], t);
                        assert(address_item(s[i]) is Ok);
                    }
                }
            },
        }
    }
}

/// A block has the addresses of its three lists, one behind the other: the plain
/// ones, the IPv4 ones and the IPv6 ones. Without any it has no list.
pub proof fn blocks_join_their_lists(
    plain: Vec<String>,
    ipv4: Option<IpList>,
    ipv6: Option<IpList>,
    ports: Option<PortSpec>,
    block: AddrBlock,
)
    requires
        call_ensures(addr_block, (plain, &ipv4, &ipv6, ports), block),
    ensures
        ({
            let n = plain@.len() as int;
            let m = match ipv4 {
                Some(l) => l.addresses@.len() as int,
                None => 0,
            };
            let k = match ipv6 {
                Some(l) => l.addresses@.len() as int,
                None => 0,
            };
            &&& block.ports == ports
            &&& block.addresses is Some <==> n + m + k > 0
            &&& block.addresses matches Some(all) ==> {
                &&& all@.len() == n + m + k
                &&& forall|i: int| 0 <= i < n ==> (#[trigger] all@[i])@ == plain@[i]@
                &&& forall|i: int|
                    n <= i < n + m ==> (#[trigger] all@[i])@ == ipv4->0.addresses@[i - n]@
                &&& forall|i: int|
                    n + m <= i < n + m + k ==> (#[trigger] all@[i])@ == ipv6->0.addresses@[i - n
                        - m]@
            }
        }),
{
    let joined = texts(plain@) + list_texts(ipv4) + list_texts(ipv6);
    if let Some(all) = block.addresses {
        assert(texts(all@) == joined);
        assert(all@.len() == joined.len());
        assert forall|i: int| 0 <= i < all@.len() implies (#[trigger] all@[i])@ == joined[i] by {
            assert(texts(all@)[i] == all@[i]@);
        }
    }
}

} // verus!
