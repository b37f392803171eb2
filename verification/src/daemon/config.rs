//! The configuration file of the daemon.
use vstd::prelude::*;

use crate::text::{opt_text, texts, told};
use crate::yaml::{items, Yaml, YamlView};

verus! {

#[derive(Debug, Default)]
pub struct Config {
    pub acl: AclConfig,
    pub logging: LoggingConfig,
    pub rate_limit: RateLimitConfig,
    pub monitoring: MonitoringConfig,
}

#[derive(Debug, Default)]
pub struct AclConfig {
    pub default_action: String,
    pub allow: Vec<AclRule>,
    pub drop: Vec<AclRule>,
}

#[derive(Debug, Default)]
pub struct AclRule {
    pub src: Option<AddrBlock>,
    pub dst: Option<AddrBlock>,
    pub vlan: Option<Vec<VlanSpec>>,
    pub rate: Option<u32>,
}

#[derive(Debug, Default)]
pub struct AddrBlock {
    pub addresses: Option<Vec<String>>,
    pub ports: Option<PortSpec>,
}

#[derive(Debug, Default)]
pub struct IpList {
    pub addresses: Vec<String>,
}

#[derive(Debug, Default)]
pub struct PortSpec {
    pub number: String,
    pub proto: String,
}

/// VLAN tags of a rule: one outer tag, or an outer tag with inner ones.
#[derive(Debug, Default)]
pub enum VlanSpec {
    Simple(u16),
    QinQ { outer: u16, inner: Vec<u16> },
    #[default]
    Empty,
}

#[allow(non_snake_case)]
#[derive(Clone, Copy, Debug, Default)]
pub struct LoggingConfig {
    pub PacketDrop: bool,
    pub RateLimited: bool,
    pub ConntrackMiss: bool,
    pub BackendSelected: bool,
    pub SlowPath: bool,
    pub ServiceMatched: bool,
    pub VlanDetected: bool,
    pub PacketAllow: bool,
}

#[derive(Clone, Copy, Debug, Default)]
pub struct RateLimitConfig {
    pub global: GlobalRateLimit,
    pub per_rule_multiplier: u32,
}

#[derive(Clone, Copy, Debug, Default)]
pub struct GlobalRateLimit {
    pub max_tokens: u64,
    pub refill_per_sec: u64,
}

#[derive(Clone, Copy, Debug, Default)]
pub struct MonitoringConfig {
    pub ringbuf_bytes: usize,
    pub poll_interval_ms: u64,
}

/// The default action of the ACL where the file names none.
pub fn default_action() -> (r: String)
    ensures
        r@ == "allow"@,
{
    "allow".to_string()
}

/// The port of a rule where the file names none.
pub fn default_any() -> (r: String)
    ensures
        r@ == "any"@,
{
    "any".to_string()
}

/// The protocol of a rule where the file names none.
pub fn default_tcp() -> (r: String)
    ensures
        r@ == "tcp"@,
{
    "tcp".to_string()
}

// ---- Addresses ----

/// The text of a string or a number.
pub open spec fn scalar(y: YamlView) -> Option<Seq<char>> {
    match y {
        YamlView::Str(s) => Some(s),
        YamlView::Number(n) => Some(n),
        _ => None,
    }
}

/// The address in an item of an address list: a scalar, or a list of one
/// scalar.
pub open spec fn address_item(y: YamlView) -> Result<Seq<char>, Seq<char>> {
    match y {
        YamlView::Str(s) => Ok(s),
        YamlView::Number(n) => Ok(n),
        YamlView::Sequence(inner) => if inner.len() == 1 {
            match scalar(inner[0]) {
                Some(s) => Ok(s),
                None => Err("invalid nested address element"@),
            }
        } else {
            Err("expected string or single-element sequence for address"@)
        },
        _ => Err("expected string or single-element sequence for address"@),
    }
}

/// The addresses in the items, or the message of the first that has none.
pub open spec fn address_items(s: Seq<YamlView>) -> Result<Seq<Seq<char>>, Seq<char>>
    decreases s.len(),
{
    if s.len() == 0 {
        Ok(Seq::empty())
    } else {
        match address_items(s.drop_last()) {
            Err(e) => Err(e),
            Ok(before) => match address_item(s.last()) {
                Err(e) => Err(e),
                Ok(a) => Ok(before.push(a)),
            },
        }
    }
}

/// The addresses of an `addresses` field: one string, or a list.
pub open spec fn addresses_in(y: YamlView) -> Result<Seq<Seq<char>>, Seq<char>> {
    match y {
        YamlView::Str(s) => Ok(seq![s]),
        _ => match y.sequence() {
            None => Err("expected a sequence of addresses"@),
            Some(s) => address_items(s),
        },
    }
}

/// A list of texts, or a message.
pub open spec fn text_list(r: Result<Vec<String>, String>) -> Result<Seq<Seq<char>>, Seq<char>> {
    match r {
        Ok(v) => Ok(texts(v@)),
        Err(e) => Err(e@),
    }
}

fn scalar_text(y: &Yaml) -> (r: Option<String>)
    ensures
        opt_text(r) == scalar(y@),
{
    match y {
        Yaml::Str(s) => Some(s.as_str().to_owned()),
        Yaml::Number(n) => Some(n.as_str().to_owned()),
        _ => None,
    }
}

fn read_address(y: &Yaml) -> (r: Result<String, String>)
    ensures
        told(r) == address_item(y@),
{
    match y {
        Yaml::Str(s) => Ok(s.as_str().to_owned()),
        Yaml::Number(n) => Ok(n.as_str().to_owned()),
        Yaml::Sequence(inner) => {
            if inner.len() == 1 {
                assert(y@->Sequence_0[0] == inner@[0]@);
                match scalar_text(&inner[0]) {
                    Some(s) => Ok(s),
                    None => Err("invalid nested address element".to_string()),
                }
            } else {
                Err("expected string or single-element sequence for address".to_string())
            }
        },
        _ => Err("expected string or single-element sequence for address".to_string()),
    }
}

proof fn lemma_address_error(s: Seq<YamlView>, n: int)
    requires
        0 <= n <= s.len(),
        address_items(s.take(n)) is Err,
    ensures
        address_items(s) == address_items(s.take(n)),
    decreases s.len() - n,
{
    if n == s.len() {
        assert(s.take(n) =~= s);
    } else {
        assert(s.take(n + 1).drop_last() =~= s.take(n));
        lemma_address_error(s, n + 1);
    }
}

/// Reads an `addresses` field.
pub fn flatten_addresses(value: &Yaml) -> (r: Result<Vec<String>, String>)
    ensures
        text_list(r) == addresses_in(value@),
{
    if let Yaml::Str(s) = value {
        let mut one: Vec<String> = Vec::new();
        one.push(s.as_str().to_owned());
        assert(texts(one@) =~= seq![s@]);
        return Ok(one);
    }
    match value.as_sequence() {
        None => Err("expected a sequence of addresses".to_string()),
        Some(v) => {
            let ghost s = items(v@);
            let mut out: Vec<String> = Vec::new();
            let mut i: usize = 0;
            assert(s.take(0) =~= Seq::empty());
            assert(texts(out@) =~= Seq::empty());
            while i < v.len()
                invariant
                    i <= v@.len(),
                    s == items(v@),
                    value@.sequence() == Some(s),
                    !(value@ is Str),
                    address_items(s.take(i as int)) == Ok::<Seq<Seq<char>>, Seq<char>>(
                        texts(out@),
                    ),
                decreases v@.len() - i,
            {
                assert(s.take(i + 1).drop_last() =~= s.take(i as int));
                assert(s.take(i + 1).last() == v@[i as int]@);
                match read_address(&v[i]) {
                    Err(e) => {
                        proof {
                            lemma_address_error(s, i + 1);
                        }
                        return Err(e);
                    },
                    Ok(a) => {
                        let ghost before = out@;
                        out.push(a);
                        assert(texts(out@) =~= texts(before).push(a@));
                    },
                }
                i += 1;
            }
            assert(s.take(i as int) =~= s);
            Ok(out)
        },
    }
}

/// The texts of an optional address list.
pub open spec fn list_texts(l: Option<IpList>) -> Seq<Seq<char>> {
    match l {
        Some(l) => texts(l.addresses@),
        None => Seq::empty(),
    }
}

/// The texts of an address block.
pub open spec fn block_texts(b: AddrBlock) -> Option<Seq<Seq<char>>> {
    match b.addresses {
        Some(v) => Some(texts(v@)),
        None => None,
    }
}

fn extend_texts(out: &mut Vec<String>, l: &Option<IpList>)
    ensures
        texts(final(out)@) == texts(old(out)@) + list_texts(*l),
{
    if let Some(list) = l {
        let mut i: usize = 0;
        assert(texts(out@) =~= texts(old(out)@) + texts(list.addresses@).take(0));
        while i < list.addresses.len()
            invariant
                i <= list.addresses@.len(),
                texts(out@) == texts(old(out)@) + texts(list.addresses@).take(i as int),
            decreases list.addresses@.len() - i,
        {
            let ghost before = out@;
            out.push(list.addresses[i].as_str().to_owned());
            assert(texts(out@) =~= texts(before).push(list.addresses@[i as int]@));
            assert(texts(list.addresses@).take(i + 1) =~= texts(list.addresses@).take(
                i as int,
            ).push(list.addresses@[i as int]@));
            i += 1;
        }
        assert(texts(list.addresses@).take(i as int) =~= texts(list.addresses@));
    }
    assert(texts(out@) =~= texts(old(out)@) + list_texts(*l));
}

/// Puts an address block together from its fields: the flat list, then the
/// IPv4 and IPv6 lists. A block without addresses has no list at all.
pub fn addr_block(
    addresses: Vec<String>,
    ipv4: &Option<IpList>,
    ipv6: &Option<IpList>,
    ports: Option<PortSpec>,
) -> (r: AddrBlock)
    ensures
        r.ports == ports,
        block_texts(r) == {
            let all = texts(addresses@) + list_texts(*ipv4) + list_texts(*ipv6);
            if all.len() == 0 {
                None
            } else {
                Some(all)
            }
        },
{
    let mut all = addresses;
    extend_texts(&mut all, ipv4);
    extend_texts(&mut all, ipv6);
    if all.len() == 0 {
        return AddrBlock { addresses: None, ports };
    }
    AddrBlock { addresses: Some(all), ports }
}

// ---- VLAN tags ----

/// The pairs of outer and inner tag that a specification stands for.
pub open spec fn vlan_pairs(v: VlanSpec) -> Seq<(u16, Option<u16>)> {
    match v {
        VlanSpec::Simple(id) => seq![(id, None)],
        VlanSpec::QinQ { outer, inner } => Seq::new(
            inner@.len(),
            |i: int| (outer, Some(inner@[i])),
        ),
        VlanSpec::Empty => Seq::empty(),
    }
}

impl VlanSpec {
    /// The pairs of outer and inner tag.
    pub fn iter(&self) -> (r: Vec<(u16, Option<u16>)>)
        ensures
            r@ == vlan_pairs(*self),
    {
        let mut out: Vec<(u16, Option<u16>)> = Vec::new();
        match self {
            VlanSpec::Simple(v) => {
                out.push((*v, None));
            },
            VlanSpec::QinQ { outer, inner } => {
                let mut i: usize = 0;
                while i < inner.len()
                    invariant
                        i <= inner@.len(),
                        *self == (VlanSpec::QinQ { outer: *outer, inner: *inner }),
                        out@ == vlan_pairs(*self).take(i as int),
                    decreases inner@.len() - i,
                {
                    out.push((*outer, Some(inner[i])));
                    i += 1;
                    assert(out@ =~= vlan_pairs(*self).take(i as int));
                }
            },
            VlanSpec::Empty => {},
        }
        assert(out@ =~= vlan_pairs(*self));
        out
    }
}

} // verus!
