//! Checking a configuration file before it is loaded.
use vstd::prelude::*;
use vstd::string::StringExecFns;

use crate::text::{decimal, opt_text, push_decimal};
use crate::yaml::{
    items, opt_yaml, parse_yaml, value_under, yaml_document, Yaml, YamlView,
};

verus! {

/// What a check found: a file that is valid, a line about what is missing, or
/// a message about what is wrong.
#[derive(Debug)]
pub enum Finding {
    Valid,
    Missing(String),
    Wrong(String),
}

#[verifier::ext_equal]
pub enum FindingView {
    Valid,
    Missing(Seq<char>),
    Wrong(Seq<char>),
}

impl View for Finding {
    type V = FindingView;

    open spec fn view(&self) -> FindingView {
        match self {
            Finding::Valid => FindingView::Valid,
            Finding::Missing(s) => FindingView::Missing(s@),
            Finding::Wrong(s) => FindingView::Wrong(s@),
        }
    }
}

/// The first of two messages.
pub open spec fn either(a: Option<Seq<char>>, b: Option<Seq<char>>) -> Option<Seq<char>> {
    match a {
        Some(m) => Some(m),
        None => b,
    }
}

pub open spec fn is_text(y: YamlView) -> bool {
    y.untagged() is Str
}

pub open spec fn is_scalar(y: YamlView) -> bool {
    y.untagged() is Str || y.untagged() is Number
}

pub open spec fn is_list(y: YamlView) -> bool {
    y.sequence() is Some
}

/// What is wrong with an item of an address list at `at`.
pub open spec fn element_error(e: YamlView, at: Seq<char>) -> Option<Seq<char>> {
    match e {
        YamlView::Str(_) => None,
        YamlView::Number(_) => None,
        YamlView::Sequence(inner) => if inner.len() == 1 {
            if is_scalar(inner[0]) {
                None
            } else {
                Some(at + ".addresses contains invalid nested element"@)
            }
        } else {
            Some(at + ".addresses must contain strings or single-element sequences"@)
        },
        _ => Some(at + ".addresses must contain strings or single-element sequences"@),
    }
}

pub open spec fn elements_error(s: Seq<YamlView>, at: Seq<char>) -> Option<Seq<char>>
    decreases s.len(),
{
    if s.len() == 0 {
        None
    } else {
        either(elements_error(s.drop_last(), at), element_error(s.last(), at))
    }
}

/// What is wrong with an `addresses` field: it is a list, or one scalar.
pub open spec fn addresses_error(a: Option<YamlView>, at: Seq<char>) -> Option<Seq<char>> {
    match a {
        None => None,
        Some(v) => match v.sequence() {
            Some(s) => elements_error(s, at),
            None => if is_scalar(v) {
                element_error(v, at)
            } else {
                Some(at + ".addresses must be a sequence"@)
            },
        },
    }
}

/// What is wrong with an `ipv4` or `ipv6` field: it holds a list.
pub open spec fn family_error(a: Option<YamlView>, at: Seq<char>) -> Option<Seq<char>> {
    match a {
        None => None,
        Some(v) => match v.mapping() {
            None => Some(at + " must be a mapping"@),
            Some(m) => match value_under(m, "addresses"@) {
                Some(l) => if is_list(l) {
                    None
                } else {
                    Some(at + ".addresses must be a sequence"@)
                },
                None => Some(at + ".addresses must be a sequence"@),
            },
        },
    }
}

/// What is wrong with a `ports` field: it holds a number and a protocol.
pub open spec fn ports_error(a: Option<YamlView>, at: Seq<char>) -> Option<Seq<char>> {
    match a {
        None => None,
        Some(v) => match v.mapping() {
            None => Some(at + " must be a mapping"@),
            Some(m) => {
                let number = value_under(m, "number"@);
                let proto = value_under(m, "proto"@);
                if !(number is Some && is_scalar(number->0)) {
                    Some(at + ".number must be a string or number"@)
                } else if !(proto is Some && is_text(proto->0)) {
                    Some(at + ".proto must be a string"@)
                } else {
                    None
                }
            },
        },
    }
}

/// What is wrong with an address block.
pub open spec fn block_error(a: Option<YamlView>, at: Seq<char>) -> Option<Seq<char>> {
    match a {
        None => None,
        Some(v) => match v.mapping() {
            None => Some(at + " must be a mapping"@),
            Some(m) => either(
                addresses_error(value_under(m, "addresses"@), at),
                either(
                    family_error(value_under(m, "ipv4"@), at + ".ipv4"@),
                    either(
                        family_error(value_under(m, "ipv6"@), at + ".ipv6"@),
                        ports_error(value_under(m, "ports"@), at + ".ports"@),
                    ),
                ),
            ),
        },
    }
}

/// What is wrong with a rule.
pub open spec fn rule_error(rule: YamlView, at: Seq<char>) -> Option<Seq<char>> {
    match rule.mapping() {
        None => Some(at + " must be a mapping"@),
        Some(m) => {
            let vlan = value_under(m, "vlan"@);
            if vlan is Some && !is_list(vlan->0) {
                Some(at + ".vlan must be a sequence"@)
            } else {
                either(
                    block_error(value_under(m, "src"@), at + ".src"@),
                    block_error(value_under(m, "dst"@), at + ".dst"@),
                )
            }
        },
    }
}

/// The place of a rule in the file.
pub open spec fn rule_place(section: Seq<char>, i: int) -> Seq<char> {
    "acl."@ + section + "["@ + decimal(i) + "]"@
}

pub open spec fn rules_error(rules: Seq<YamlView>, section: Seq<char>) -> Option<Seq<char>>
    decreases rules.len(),
{
    if rules.len() == 0 {
        None
    } else {
        either(
            rules_error(rules.drop_last(), section),
            rule_error(rules.last(), rule_place(section, rules.len() - 1)),
        )
    }
}

/// What is wrong with the rules of a section.
pub open spec fn section_error(
    acl: Seq<(YamlView, YamlView)>,
    section: Seq<char>,
) -> Option<Seq<char>> {
    let rules = match value_under(acl, section) {
        Some(v) => v.sequence(),
        None => None,
    };
    match rules {
        None => Some("acl."@ + section + " must be a sequence"@),
        Some(s) => rules_error(s, section),
    }
}

/// The first required section that a file does not have.
pub open spec fn missing_section(m: Seq<(YamlView, YamlView)>) -> Option<Seq<char>> {
    if value_under(m, "acl"@) is None {
        Some("acl"@)
    } else if value_under(m, "logging"@) is None {
        Some("logging"@)
    } else if value_under(m, "rate_limit"@) is None {
        Some("rate_limit"@)
    } else if value_under(m, "monitoring"@) is None {
        Some("monitoring"@)
    } else {
        None
    }
}

/// What a check of a document finds.
pub open spec fn finding(y: YamlView) -> FindingView {
    match y.mapping() {
        None => FindingView::Wrong("config root must be a mapping"@),
        Some(m) => match missing_section(m) {
            Some(s) => FindingView::Missing("Missing required section: "@ + s),
            None => match value_under(m, "acl"@)->0.mapping() {
                None => FindingView::Wrong("acl section must be a mapping"@),
                Some(acl) => match either(
                    section_error(acl, "allow"@),
                    section_error(acl, "drop"@),
                ) {
                    Some(e) => FindingView::Wrong(e),
                    None => FindingView::Valid,
                },
            },
        },
    }
}

/// What a check of a text finds.
pub open spec fn text_finding(document: Result<YamlView, Seq<char>>) -> FindingView {
    match document {
        Err(e) => FindingView::Missing("YAML parse error: "@ + e),
        Ok(y) => finding(y),
    }
}

fn scalar(y: &Yaml) -> (r: bool)
    ensures
        r == is_scalar(y@),
{
    match y.untag() {
        Yaml::Str(_) => true,
        Yaml::Number(_) => true,
        _ => false,
    }
}

fn text(y: &Yaml) -> (r: bool)
    ensures
        r == is_text(y@),
{
    match y.untag() {
        Yaml::Str(_) => true,
        _ => false,
    }
}

fn message(at: &str, what: &str) -> (r: String)
    ensures
        r@ == at@ + what@,
{
    let mut s = at.to_owned();
    s.append(what);
    s
}

fn check_element(e: &Yaml, at: &str) -> (r: Option<String>)
    ensures
        opt_text(r) == element_error(e@, at@),
{
    match e {
        Yaml::Str(_) => None,
        Yaml::Number(_) => None,
        Yaml::Sequence(inner) => {
            if inner.len() == 1 {
                assert(e@->Sequence_0[0] == inner@[0]@);
                if scalar(&inner[0]) {
                    None
                } else {
                    Some(message(at, ".addresses contains invalid nested element"))
                }
            } else {
                Some(message(at, ".addresses must contain strings or single-element sequences"))
            }
        },
        _ => Some(message(at, ".addresses must contain strings or single-element sequences")),
    }
}

proof fn lemma_elements_error(s: Seq<YamlView>, at: Seq<char>, n: int)
    requires
        0 <= n <= s.len(),
        elements_error(s.take(n), at) is Some,
    ensures
        elements_error(s, at) == elements_error(s.take(n), at),
    decreases s.len() - n,
{
    if n == s.len() {
        assert(s.take(n) =~= s);
    } else {
        assert(s.take(n + 1).drop_last() =~= s.take(n));
        lemma_elements_error(s, at, n + 1);
    }
}

fn check_elements(v: &Vec<Yaml>, at: &str) -> (r: Option<String>)
    ensures
        opt_text(r) == elements_error(items(v@), at@),
{
    let ghost s = items(v@);
    let mut i: usize = 0;
    assert(s.take(0) =~= Seq::empty());
    while i < v.len()
        invariant
            i <= v@.len(),
            s == items(v@),
            elements_error(s.take(i as int), at@) is None,
        decreases v@.len() - i,
    {
        assert(s.take(i + 1).drop_last() =~= s.take(i as int));
        assert(s.take(i + 1).last() == v@[i as int]@);
        let e = check_element(&v[i], at);
        if e.is_some() {
            proof {
                lemma_elements_error(s, at@, i + 1);
            }
            return e;
        }
        i += 1;
    }
    assert(s.take(i as int) =~= s);
    None
}

fn check_addresses(a: Option<&Yaml>, at: &str) -> (r: Option<String>)
    ensures
        opt_text(r) == addresses_error(opt_yaml(a), at@),
{
    match a {
        None => None,
        Some(v) => match v.as_sequence() {
            Some(s) => check_elements(s, at),
            None => {
                if scalar(v) {
                    check_element(v, at)
                } else {
                    Some(message(at, ".addresses must be a sequence"))
                }
            },
        },
    }
}

fn check_family(a: Option<&Yaml>, at: &str) -> (r: Option<String>)
    ensures
        opt_text(r) == family_error(opt_yaml(a), at@),
{
    match a {
        None => None,
        Some(v) => {
            if !v.is_mapping() {
                return Some(message(at, " must be a mapping"));
            }
            match v.get("addresses") {
                Some(l) => {
                    if l.as_sequence().is_some() {
                        None
                    } else {
                        Some(message(at, ".addresses must be a sequence"))
                    }
                },
                None => Some(message(at, ".addresses must be a sequence")),
            }
        },
    }
}

fn check_ports(a: Option<&Yaml>, at: &str) -> (r: Option<String>)
    ensures
        opt_text(r) == ports_error(opt_yaml(a), at@),
{
    match a {
        None => None,
        Some(v) => {
            if !v.is_mapping() {
                return Some(message(at, " must be a mapping"));
            }
            let number_ok = match v.get("number") {
                Some(n) => scalar(n),
                None => false,
            };
            if !number_ok {
                return Some(message(at, ".number must be a string or number"));
            }
            let proto_ok = match v.get("proto") {
                Some(p) => text(p),
                None => false,
            };
            if !proto_ok {
                return Some(message(at, ".proto must be a string"));
            }
            None
        },
    }
}

fn check_block(a: Option<&Yaml>, at: &str) -> (r: Option<String>)
    ensures
        opt_text(r) == block_error(opt_yaml(a), at@),
{
    match a {
        None => None,
        Some(v) => {
            if !v.is_mapping() {
                return Some(message(at, " must be a mapping"));
            }
            let e = check_addresses(v.get("addresses"), at);
            if e.is_some() {
                return e;
            }
            let e = check_family(v.get("ipv4"), message(at, ".ipv4").as_str());
            if e.is_some() {
                return e;
            }
            let e = check_family(v.get("ipv6"), message(at, ".ipv6").as_str());
            if e.is_some() {
                return e;
            }
            check_ports(v.get("ports"), message(at, ".ports").as_str())
        },
    }
}

fn check_rule(rule: &Yaml, at: &str) -> (r: Option<String>)
    ensures
        opt_text(r) == rule_error(rule@, at@),
{
    if !rule.is_mapping() {
        return Some(message(at, " must be a mapping"));
    }
    if let Some(vlan) = rule.get("vlan") {
        if vlan.as_sequence().is_none() {
            return Some(message(at, ".vlan must be a sequence"));
        }
    }
    let e = check_block(rule.get("src"), message(at, ".src").as_str());
    if e.is_some() {
        return e;
    }
    check_block(rule.get("dst"), message(at, ".dst").as_str())
}

proof fn lemma_rules_error(s: Seq<YamlView>, section: Seq<char>, n: int)
    requires
        0 <= n <= s.len(),
        rules_error(s.take(n), section) is Some,
    ensures
        rules_error(s, section) == rules_error(s.take(n), section),
    decreases s.len() - n,
{
    if n == s.len() {
        assert(s.take(n) =~= s);
    } else {
        assert(s.take(n + 1).drop_last() =~= s.take(n));
        lemma_rules_error(s, section, n + 1);
    }
}

fn check_rules(v: &Vec<Yaml>, section: &str) -> (r: Option<String>)
    ensures
        opt_text(r) == rules_error(items(v@), section@),
{
    let ghost s = items(v@);
    let mut i: usize = 0;
    assert(s.take(0) =~= Seq::empty());
    while i < v.len()
        invariant
            i <= v@.len(),
            s == items(v@),
            rules_error(s.take(i as int), section@) is None,
        decreases v@.len() - i,
    {
        assert(s.take(i + 1).drop_last() =~= s.take(i as int));
        assert(s.take(i + 1).last() == v@[i as int]@);
        let mut at = "acl.".to_string();
        at.append(section);
        at.append("[");
        push_decimal(&mut at, i as u64);
        at.append("]");
        let e = check_rule(&v[i], at.as_str());
        if e.is_some() {
            proof {
                lemma_rules_error(s, section@, i + 1);
            }
            return e;
        }
        i += 1;
    }
    assert(s.take(i as int) =~= s);
    None
}

fn check_section(acl: &Yaml, section: &str) -> (r: Option<String>)
    requires
        acl@.mapping() is Some,
    ensures
        opt_text(r) == section_error(acl@.mapping()->0, section@),
{
    let rules = match acl.get(section) {
        Some(v) => v.as_sequence(),
        None => None,
    };
    match rules {
        None => {
            let mut m = "acl.".to_string();
            m.append(section);
            m.append(" must be a sequence");
            Some(m)
        },
        Some(s) => check_rules(s, section),
    }
}

fn find_missing(y: &Yaml) -> (r: Option<&'static str>)
    requires
        y@.mapping() is Some,
    ensures
        match (r, missing_section(y@.mapping()->0)) {
            (Some(a), Some(b)) => a@ == b,
            (None, None) => true,
            _ => false,
        },
{
    if y.get("acl").is_none() {
        Some("acl")
    } else if y.get("logging").is_none() {
        Some("logging")
    } else if y.get("rate_limit").is_none() {
        Some("rate_limit")
    } else if y.get("monitoring").is_none() {
        Some("monitoring")
    } else {
        None
    }
}

/// Checks a document.
pub fn check_document(y: &Yaml) -> (r: Finding)
    ensures
        r@ == finding(y@),
{
    if !y.is_mapping() {
        return Finding::Wrong("config root must be a mapping".to_string());
    }
    if let Some(s) = find_missing(y) {
        return Finding::Missing(message("Missing required section: ", s));
    }
    match y.get("acl") {
        None => Finding::Wrong("acl section must be a mapping".to_string()),
        Some(acl) => {
            if !acl.is_mapping() {
                return Finding::Wrong("acl section must be a mapping".to_string());
            }
            if let Some(e) = check_section(acl, "allow") {
                return Finding::Wrong(e);
            }
            if let Some(e) = check_section(acl, "drop") {
                return Finding::Wrong(e);
            }
            Finding::Valid
        },
    }
}

/// Checks the text of a configuration file.
pub fn check_config(contents: &str) -> (r: Finding)
    ensures
        r@ == text_finding(yaml_document(contents@)),
{
    match parse_yaml(contents) {
        Err(e) => Finding::Missing(message("YAML parse error: ", e.as_str())),
        Ok(y) => check_document(&y),
    }
}

} // verus!
