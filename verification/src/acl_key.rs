//! Addresses, ports and protocols of ACL rules, and the map entries of rules.
//!
//! A key holds `family` 4 for IPv4 and 6 for IPv6, and an IPv4 address in the last four bytes
//! of its 16-byte field, behind zeros. `prefix_len` counts bits from the start
//! of the key, its own four bytes included, and covers only what a rule has to
//! match: a rule for any port has a shorter prefix.
use vstd::prelude::*;
use vstd::string::StringExecFns;

use crate::bytes::{le16, le32, push_le32};
use crate::maps::{AclAction, L4AclKey, AF_INET, AF_INET6, L4_ACL_PREFIX_LEN};
use crate::text::{
    decimal, has, has_char, lower_text, parse_number, push_decimal, read_number, same, split,
    split_first, split_once, split_text, texts, to_lower, told,
};

verus! {

// ---- Ports ----

/// A port of a rule.
#[derive(Clone, Copy, Debug, PartialEq, Eq, Structural)]
pub enum PortSpec {
    Any,
    Exact(u16),
}

impl View for PortSpec {
    type V = PortSpec;

    open spec fn view(&self) -> PortSpec {
        *self
    }
}

/// The port that a text names: `any` in any case, `*`, or a number.
pub open spec fn parsed_port(s: Seq<char>) -> Result<PortSpec, Seq<char>> {
    if lower_text(s) == "any"@ || s == "*"@ {
        Ok(PortSpec::Any)
    } else {
        match parse_number(s, 10, 65535) {
            Some(p) => Ok(PortSpec::Exact(p as u16)),
            None => Err("invalid port: '"@ + s + "' (expected number or 'any')"@),
        }
    }
}

impl PortSpec {
    pub fn parse(s: &str) -> (r: Result<PortSpec, String>)
        ensures
            told(r) == parsed_port(s@),
    {
        if same(to_lower(s).as_str(), "any") || same(s, "*") {
            return Ok(PortSpec::Any);
        }
        match read_number(s, 10, 65535) {
            Some(p) => Ok(PortSpec::Exact(p as u16)),
            None => {
                let mut m = "invalid port: '".to_string();
                m.append(s);
                m.append("' (expected number or 'any')");
                Err(m)
            },
        }
    }
}

// ---- Protocols ----

/// A transport protocol. `Unknown` stands for a number without a name.
#[derive(Clone, Copy, Debug, PartialEq, Eq, Structural)]
pub enum Proto {
    Tcp,
    Udp,
    Icmp,
    Icmpv6,
    Unknown(u8),
}

impl View for Proto {
    type V = Proto;

    open spec fn view(&self) -> Proto {
        *self
    }
}

/// The protocol that a text names, in any case.
pub open spec fn parsed_proto(s: Seq<char>) -> Result<Proto, Seq<char>> {
    let name = lower_text(s);
    if name == "tcp"@ {
        Ok(Proto::Tcp)
    } else if name == "udp"@ {
        Ok(Proto::Udp)
    } else if name == "icmp"@ {
        Ok(Proto::Icmp)
    } else if name == "icmpv6"@ {
        Ok(Proto::Icmpv6)
    } else {
        Err("unknown proto: '"@ + name + "' (tcp|udp|icmp|icmpv6)"@)
    }
}

impl Proto {
    pub fn parse(s: &str) -> (r: Result<Proto, String>)
        ensures
            told(r) == parsed_proto(s@),
    {
        let name = to_lower(s);
        if same(name.as_str(), "tcp") {
            Ok(Proto::Tcp)
        } else if same(name.as_str(), "udp") {
            Ok(Proto::Udp)
        } else if same(name.as_str(), "icmp") {
            Ok(Proto::Icmp)
        } else if same(name.as_str(), "icmpv6") {
            Ok(Proto::Icmpv6)
        } else {
            let mut m = "unknown proto: '".to_string();
            m.append(name.as_str());
            m.append("' (tcp|udp|icmp|icmpv6)");
            Err(m)
        }
    }

    /// The protocol number.
    pub open spec fn number(self) -> u8 {
        match self {
            Proto::Tcp => 6,
            Proto::Udp => 17,
            Proto::Icmp => 1,
            Proto::Icmpv6 => 58,
            Proto::Unknown(n) => n,
        }
    }

    pub open spec fn spec_name(self) -> Seq<char> {
        match self {
            Proto::Tcp => "tcp"@,
            Proto::Udp => "udp"@,
            Proto::Icmp => "icmp"@,
            Proto::Icmpv6 => "icmpv6"@,
            Proto::Unknown(_) => "unknown"@,
        }
    }

    /// The protocol has no ports.
    pub open spec fn portless(self) -> bool {
        self == Proto::Icmp || self == Proto::Icmpv6
    }

    pub fn ip_proto(self) -> (r: u8)
        ensures
            r == self.number(),
    {
        match self {
            Proto::Tcp => 6,
            Proto::Udp => 17,
            Proto::Icmp => 1,
            Proto::Icmpv6 => 58,
            Proto::Unknown(n) => n,
        }
    }

    pub fn name(self) -> (r: &'static str)
        ensures
            r@ == self.spec_name(),
    {
        match self {
            Proto::Tcp => "tcp",
            Proto::Udp => "udp",
            Proto::Icmp => "icmp",
            Proto::Icmpv6 => "icmpv6",
            Proto::Unknown(_) => "unknown",
        }
    }

    pub fn is_portless(self) -> (r: bool)
        ensures
            r == self.portless(),
    {
        match self {
            Proto::Icmp => true,
            Proto::Icmpv6 => true,
            _ => false,
        }
    }
}

// ---- Networks ----

/// A byte with all but its first `keep` bits zeroed.
pub open spec fn masked_byte(b: u8, keep: int) -> u8 {
    if keep >= 8 {
        b
    } else if keep == 7 {
        (b / 2 * 2) as u8
    } else if keep == 6 {
        (b / 4 * 4) as u8
    } else if keep == 5 {
        (b / 8 * 8) as u8
    } else if keep == 4 {
        (b / 16 * 16) as u8
    } else if keep == 3 {
        (b / 32 * 32) as u8
    } else if keep == 2 {
        (b / 64 * 64) as u8
    } else if keep == 1 {
        (b / 128 * 128) as u8
    } else {
        0
    }
}

/// An address with all but its first `prefix` bits zeroed.
pub open spec fn network(addr: Seq<u8>, prefix: int) -> Seq<u8> {
    Seq::new(addr.len(), |i: int| masked_byte(addr[i], prefix - 8 * i))
}

proof fn lemma_masked_twice(b: u8, keep: int)
    ensures
        masked_byte(masked_byte(b, keep), keep) == masked_byte(b, keep),
{
    if keep == 7 {
        assert(b / 2 * 2 / 2 == b / 2);
    } else if keep == 6 {
        assert(b / 4 * 4 / 4 == b / 4);
    } else if keep == 5 {
        assert(b / 8 * 8 / 8 == b / 8);
    } else if keep == 4 {
        assert(b / 16 * 16 / 16 == b / 16);
    } else if keep == 3 {
        assert(b / 32 * 32 / 32 == b / 32);
    } else if keep == 2 {
        assert(b / 64 * 64 / 64 == b / 64);
    } else if keep == 1 {
        assert(b / 128 * 128 / 128 == b / 128);
    }
}

/// Taking the network of a network changes nothing.
pub proof fn network_is_idempotent(addr: Seq<u8>, prefix: int)
    ensures
        network(network(addr, prefix), prefix) == network(addr, prefix),
{
    let once = network(addr, prefix);
    let twice = network(once, prefix);
    assert forall|i: int| 0 <= i < addr.len() implies twice[i] == once[i] by {
        lemma_masked_twice(addr[i], prefix - 8 * i);
    }
    assert(twice =~= once);
}

/// The whole bytes of the prefix stay, and all bytes behind it are zero.
pub proof fn network_keeps_prefix(addr: Seq<u8>, prefix: int)
    ensures
        network(addr, prefix).len() == addr.len(),
        forall|i: int|
            0 <= i < addr.len() && 8 * (i + 1) <= prefix ==> #[trigger] network(addr, prefix)[i]
                == addr[i],
        forall|i: int|
            0 <= i < addr.len() && 8 * i >= prefix ==> #[trigger] network(addr, prefix)[i] == 0,
{
}

pub(crate) fn mask_byte(b: u8, prefix: u32, skip: u32) -> (r: u8)
    requires
        skip <= 128,
    ensures
        r == masked_byte(b, prefix - skip),
{
    if prefix <= skip {
        return 0;
    }
    let keep: u32 = prefix - skip;
    if keep >= 8 {
        b
    } else if keep == 7 {
        b / 2 * 2
    } else if keep == 6 {
        b / 4 * 4
    } else if keep == 5 {
        b / 8 * 8
    } else if keep == 4 {
        b / 16 * 16
    } else if keep == 3 {
        b / 32 * 32
    } else if keep == 2 {
        b / 64 * 64
    } else {
        b / 128 * 128
    }
}

pub open spec fn zeros(n: nat) -> Seq<u8> {
    Seq::new(n, |i: int| 0u8)
}

// ---- Addresses ----

/// What an address of a rule says.
#[verifier::ext_equal]
pub struct AddrView {
    pub v6: bool,
    pub addr: Seq<u8>,
    pub prefix: Option<u32>,
}

impl AddrView {
    /// The prefix length; without one the whole address counts.
    pub open spec fn bits(self) -> u32 {
        match self.prefix {
            Some(p) => p,
            None => if self.v6 {
                128
            } else {
                32
            },
        }
    }

    /// The network in the 16 bytes of a key.
    pub open spec fn lpm(self) -> Seq<u8> {
        if self.v6 {
            network(self.addr, self.bits() as int)
        } else {
            zeros(12) + network(self.addr, self.bits() as int)
        }
    }

    pub open spec fn family(self) -> u8 {
        if self.v6 {
            AF_INET6
        } else {
            AF_INET
        }
    }
}

/// An IPv4 address with an optional prefix length.
#[derive(Clone, Copy, Debug, PartialEq, Eq)]
pub struct Ipv4 {
    pub addr: [u8; 4],
    pub prefix: Option<u32>,
}

impl View for Ipv4 {
    type V = AddrView;

    open spec fn view(&self) -> AddrView {
        AddrView { v6: false, addr: self.addr@, prefix: self.prefix }
    }
}

/// The address and the prefix part of a text.
pub open spec fn address_part(s: Seq<char>) -> Seq<char> {
    match split_once(s, '/') {
        Some((a, p)) => a,
        None => s,
    }
}

pub open spec fn prefix_part(s: Seq<char>) -> Option<Seq<char>> {
    match split_once(s, '/') {
        Some((a, p)) => Some(p),
        None => None,
    }
}

/// The prefix length of a text, at most `max`.
pub open spec fn parsed_prefix(s: Seq<char>, max: int) -> Result<Option<u32>, Seq<char>> {
    match prefix_part(s) {
        None => Ok(None),
        Some(p) => match parse_number(p, 10, u32::MAX as int) {
            None => Err("invalid prefix: '"@ + p + "' in '"@ + s + "'"@),
            Some(bits) => if bits > max {
                Err("prefix > "@ + decimal(max) + ": '"@ + p + "' in '"@ + s + "'"@)
            } else {
                Ok(Some(bits as u32))
            },
        },
    }
}

/// The first of the first `n` parts that is no octet.
pub open spec fn bad_octet(parts: Seq<Seq<char>>, n: nat) -> Option<int>
    decreases n,
{
    if n == 0 {
        None
    } else {
        match bad_octet(parts, (n - 1) as nat) {
            Some(i) => Some(i),
            None => if parse_number(parts[n - 1], 10, 255) is None {
                Some(n - 1)
            } else {
                None
            },
        }
    }
}

/// The IPv4 address that a text writes: four octets and an optional prefix
/// length of at most 32.
pub open spec fn parsed_ipv4(s: Seq<char>) -> Result<AddrView, Seq<char>> {
    let parts = split(address_part(s), '.');
    if parts.len() != 4 {
        Err("invalid IPv4: '"@ + s + "'"@)
    } else {
        match bad_octet(parts, 4) {
            Some(i) => Err("invalid octet '"@ + parts[i] + "' in '"@ + s + "'"@),
            None => match parsed_prefix(s, 32) {
                Err(e) => Err(e),
                Ok(prefix) => Ok(
                    AddrView {
                        v6: false,
                        addr: Seq::new(4, |i: int| parse_number(parts[i], 10, 255)->0 as u8),
                        prefix,
                    },
                ),
            },
        }
    }
}

/// A text and its prefix part.
fn split_prefix(s: &str) -> (r: (String, Option<String>))
    ensures
        r.0@ == address_part(s@),
        crate::text::opt_text(r.1) == prefix_part(s@),
{
    match split_first(s, '/') {
        Some((a, p)) => (a, Some(p)),
        None => (s.to_owned(), None),
    }
}

fn parse_prefix(s: &str, part: &Option<String>, max: u32) -> (r: Result<Option<u32>, String>)
    requires
        crate::text::opt_text(*part) == prefix_part(s@),
    ensures
        match (r, parsed_prefix(s@, max as int)) {
            (Ok(a), Ok(b)) => a == b,
            (Err(m), Err(e)) => m@ == e,
            _ => false,
        },
{
    match part {
        None => Ok(None),
        Some(p) => match read_number(p.as_str(), 10, 0xffff_ffff) {
            None => {
                let mut m = "invalid prefix: '".to_string();
                m.append(p.as_str());
                m.append("' in '");
                m.append(s);
                m.append("'");
                Err(m)
            },
            Some(bits) => {
                if bits > max as u64 {
                    let mut m = "prefix > ".to_string();
                    push_decimal(&mut m, max as u64);
                    m.append(": '");
                    m.append(p.as_str());
                    m.append("' in '");
                    m.append(s);
                    m.append("'");
                    return Err(m);
                }
                Ok(Some(bits as u32))
            },
        },
    }
}

proof fn lemma_bad_octet(parts: Seq<Seq<char>>, n: nat)
    ensures
        match bad_octet(parts, n) {
            Some(i) => 0 <= i < n && parse_number(parts[i], 10, 255) is None && bad_octet(
                parts,
                i as nat,
            ) is None,
            None => forall|i: int| 0 <= i < n ==> parse_number(#[trigger] parts[i], 10, 255) is Some,
        },
    decreases n,
{
    if n > 0 {
        lemma_bad_octet(parts, (n - 1) as nat);
    }
}

proof fn lemma_bad_octet_found(parts: Seq<Seq<char>>, i: nat, n: nat)
    requires
        i < n,
        bad_octet(parts, i) is None,
        parse_number(parts[i as int], 10, 255) is None,
    ensures
        bad_octet(parts, n) == Some(i as int),
    decreases n,
{
    if n > i + 1 {
        lemma_bad_octet_found(parts, i, (n - 1) as nat);
    }
}

impl Ipv4 {
    /// Reads an address such as `192.168.0.1` or `192.168.0.0/24`.
    pub fn parse(s: &str) -> (r: Result<Ipv4, String>)
        ensures
            told(r) == parsed_ipv4(s@),
    {
        let (addr_str, prefix_str) = split_prefix(s);
        let parts = split_text(addr_str.as_str(), '.');
        let ghost all = split(address_part(s@), '.');
        assert(texts(parts@) == all);
        if parts.len() != 4 {
            let mut m = "invalid IPv4: '".to_string();
            m.append(s);
            m.append("'");
            return Err(m);
        }
        let mut octets = [0u8; 4];
        let mut i: usize = 0;
        while i < 4
            invariant
                i <= 4,
                parts@.len() == 4,
                all == split(address_part(s@), '.'),
                texts(parts@) == all,
                bad_octet(all, i as nat) is None,
                forall|j: int|
                    0 <= j < i ==> #[trigger] octets@[j] == parse_number(all[j], 10, 255)->0,
            decreases 4 - i,
        {
            assert(all[i as int] == parts@[i as int]@);
            match read_number(parts[i].as_str(), 10, 255) {
                Some(n) => {
                    octets[i] = n as u8;
                },
                None => {
                    proof {
                        lemma_bad_octet_found(all, i as nat, 4);
                    }
                    let mut m = "invalid octet '".to_string();
                    m.append(parts[i].as_str());
                    m.append("' in '");
                    m.append(s);
                    m.append("'");
                    return Err(m);
                },
            }
            i += 1;
        }
        match parse_prefix(s, &prefix_str, 32) {
            Ok(prefix) => {
                let r = Ipv4 { addr: octets, prefix };
                proof {
                    lemma_bad_octet(all, 4);
                    assert forall|j: int| 0 <= j < 4 implies #[trigger] octets@[j] == (parse_number(
                        all[j],
                        10,
                        255,
                    )->0) as u8 by {}
                    assert(octets@ =~= Seq::new(
                        4,
                        |i: int| parse_number(all[i], 10, 255)->0 as u8,
                    ));
                }
                Ok(r)
            },
            Err(e) => Err(e),
        }
    }

    pub fn addr(&self) -> (r: [u8; 4])
        ensures
            r@ == self@.addr,
    {
        self.addr
    }

    /// The prefix length, 32 where none was given.
    pub fn prefix_bits(&self) -> (r: Option<u32>)
        ensures
            r == Some(self@.bits()),
    {
        match self.prefix {
            Some(p) => Some(p),
            None => Some(32),
        }
    }

    /// The IPv4-mapped IPv6 address.
    pub fn to_mapped(&self) -> (r: [u8; 16])
        ensures
            r@ == zeros(10) + seq![0xffu8, 0xff] + self@.addr,
    {
        let a = self.addr;
        let r = [0, 0, 0, 0, 0, 0, 0, 0, 0, 0, 0xff, 0xff, a[0], a[1], a[2], a[3]];
        assert(r@ =~= zeros(10) + seq![0xffu8, 0xff] + self@.addr);
        r
    }

    /// The network behind twelve zero bytes.
    pub fn to_lpm(&self) -> (r: [u8; 16])
        ensures
            r@ == self@.lpm(),
    {
        let prefix: u32 = match self.prefix {
            Some(p) => p,
            None => 32,
        };
        let a = mask_byte(self.addr[0], prefix, 0);
        let b = mask_byte(self.addr[1], prefix, 8);
        let c = mask_byte(self.addr[2], prefix, 16);
        let d = mask_byte(self.addr[3], prefix, 24);
        let r = [0, 0, 0, 0, 0, 0, 0, 0, 0, 0, 0, 0, a, b, c, d];
        assert(r@ =~= self@.lpm());
        r
    }

    /// The address in the last four of 16 bytes.
    pub fn from_mapped(addr: &[u8; 16]) -> (r: Self)
        ensures
            r@ == (AddrView { v6: false, addr: addr@.subrange(12, 16), prefix: None }),
    {
        let r = Ipv4 { addr: [addr[12], addr[13], addr[14], addr[15]], prefix: None };
        assert(r.addr@ =~= addr@.subrange(12, 16));
        r
    }
}

/// An IPv6 address with an optional prefix length.
#[derive(Clone, Copy, Debug, PartialEq, Eq)]
pub struct Ipv6 {
    pub addr: [u8; 16],
    pub prefix: Option<u32>,
}

impl View for Ipv6 {
    type V = AddrView;

    open spec fn view(&self) -> AddrView {
        AddrView { v6: true, addr: self.addr@, prefix: self.prefix }
    }
}

/// The groups of an address, with `None` for the place of `::`. A run of empty
/// parts is one such place; a second one is an error.
pub open spec fn groups(parts: Seq<Seq<char>>, s: Seq<char>) -> Result<
    Seq<Option<u16>>,
    Seq<char>,
>
    decreases parts.len(),
{
    if parts.len() == 0 {
        Ok(Seq::empty())
    } else {
        match groups(parts.drop_last(), s) {
            Err(e) => Err(e),
            Ok(before) => {
                let part = parts.last();
                if part.len() == 0 {
                    if before.len() > 0 && before.last() is None {
                        Ok(before)
                    } else if before.contains(None) {
                        Err("multiple :: in IPv6: '"@ + s + "'"@)
                    } else {
                        Ok(before.push(None))
                    }
                } else {
                    match parse_number(part, 16, 65535) {
                        Some(v) => Ok(before.push(Some(v as u16))),
                        None => Err("invalid hextet '"@ + part + "' in '"@ + s + "'"@),
                    }
                }
            },
        }
    }
}

/// How many zero groups stand for `::` among `n` groups.
pub open spec fn fill(n: int) -> int {
    if n <= 9 {
        9 - n
    } else {
        0
    }
}

/// The groups with zeros for `::`.
pub open spec fn expanded(g: Seq<Option<u16>>, total: int) -> Seq<u16>
    decreases g.len(),
{
    if g.len() == 0 {
        Seq::empty()
    } else {
        match g.last() {
            Some(v) => expanded(g.drop_last(), total).push(v),
            None => expanded(g.drop_last(), total) + Seq::new(fill(total) as nat, |i: int| 0u16),
        }
    }
}

/// Groups of 16 bits as bytes.
pub open spec fn group_bytes(g: Seq<u16>) -> Seq<u8> {
    Seq::new(
        2 * g.len(),
        |i: int|
            if i % 2 == 0 {
                (g[i / 2] / 256) as u8
            } else {
                (g[i / 2] % 256) as u8
            },
    )
}

/// The 16 bytes of the address that a text writes. With a dot in it, the last
/// part is an IPv4 address and the whole an IPv4-mapped one.
pub open spec fn parsed_ipv6_addr(s: Seq<char>) -> Result<Seq<u8>, Seq<char>> {
    let parts = split(s, ':');
    if has(s, '.') {
        if parts.len() < 2 {
            Err("invalid IPv6: '"@ + s + "'"@)
        } else {
            match parsed_ipv4(parts.last()) {
                Err(e) => Err("invalid IPv4 in IPv6: "@ + e),
                Ok(v4) => Ok(zeros(10) + seq![0xffu8, 0xff] + v4.addr),
            }
        }
    } else {
        match groups(parts, s) {
            Err(e) => Err(e),
            Ok(g) => {
                let e = expanded(g, g.len() as int);
                if e.len() != 8 {
                    Err("incorrect number of hextets in '"@ + s + "': "@ + decimal(e.len() as int))
                } else {
                    Ok(group_bytes(e))
                }
            },
        }
    }
}

/// The IPv6 address that a text writes, with an optional prefix length of at
/// most 128.
pub open spec fn parsed_ipv6(s: Seq<char>) -> Result<AddrView, Seq<char>> {
    match parsed_ipv6_addr(address_part(s)) {
        Err(e) => Err(e),
        Ok(addr) => match parsed_prefix(s, 128) {
            Err(e) => Err(e),
            Ok(prefix) => Ok(AddrView { v6: true, addr, prefix }),
        },
    }
}

/// Reads the groups of an address.
fn read_groups(parts: &Vec<String>, s: &str) -> (r: Result<Vec<Option<u16>>, String>)
    ensures
        told(r) == groups(texts(parts@), s@),
        r matches Ok(g) ==> g@.len() <= parts@.len(),
{
    let mut g: Vec<Option<u16>> = Vec::new();
    let mut seen: bool = false;
    let mut in_run: bool = false;
    let ghost all = texts(parts@);
    let mut i: usize = 0;
    while i < parts.len()
        invariant
            i <= parts@.len(),
            all == texts(parts@),
            g@.len() <= i,
            groups(all.take(i as int), s@) == Ok::<Seq<Option<u16>>, Seq<char>>(g@),
            seen == g@.contains(None),
            in_run == (g@.len() > 0 && g@.last() is None),
        decreases parts@.len() - i,
    {
        assert(all.take(i + 1).drop_last() =~= all.take(i as int));
        assert(all.take(i + 1).last() == parts@[i as int]@);
        let part = parts[i].as_str();
        let ghost before = g@;
        if part.is_empty() {
            if !in_run {
                if seen {
                    let mut m = "multiple :: in IPv6: '".to_string();
                    m.append(s);
                    m.append("'");
                    proof {
                        lemma_groups_error(all, i + 1, s@);
                    }
                    return Err(m);
                }
                seen = true;
                in_run = true;
                g.push(None);
                assert(g@.last() is None);
                assert(g@.contains(None)) by {
                    assert(g@[g@.len() - 1] is None);
                }
            }
        } else {
            match read_number(part, 16, 65535) {
                Some(v) => {
                    in_run = false;
                    g.push(Some(v as u16));
                    assert(g@.contains(None) == before.contains(None)) by {
                        if before.contains(None) {
                            let j = choose|j: int| 0 <= j < before.len() && before[j] is None;
                            assert(g@[j] is None);
                        }
                        if g@.contains(None) {
                            let j = choose|j: int| 0 <= j < g@.len() && g@[j] is None;
                            assert(before[j] is None);
                        }
                    }
                },
                None => {
                    let mut m = "invalid hextet '".to_string();
                    m.append(part);
                    m.append("' in '");
                    m.append(s);
                    m.append("'");
                    proof {
                        lemma_groups_error(all, i + 1, s@);
                    }
                    return Err(m);
                },
            }
        }
        i += 1;
    }
    assert(all.take(all.len() as int) =~= all);
    Ok(g)
}

proof fn lemma_groups_error(parts: Seq<Seq<char>>, n: int, s: Seq<char>)
    requires
        0 <= n <= parts.len(),
        groups(parts.take(n), s) is Err,
    ensures
        groups(parts, s) == groups(parts.take(n), s),
    decreases parts.len() - n,
{
    if n == parts.len() {
        assert(parts.take(n) =~= parts);
    } else {
        assert(parts.take(n + 1).drop_last() =~= parts.take(n));
        lemma_groups_error(parts, n + 1, s);
    }
}

/// Puts zeros in the place of `::`.
fn expand_groups(g: &Vec<Option<u16>>) -> (r: Vec<u16>)
    ensures
        r@ == expanded(g@, g@.len() as int),
{
    let n: usize = g.len();
    let needed: usize = if n <= 9 {
        9 - n
    } else {
        0
    };
    let mut out: Vec<u16> = Vec::new();
    let mut i: usize = 0;
    while i < n
        invariant
            i <= n,
            n == g@.len(),
            needed == fill(n as int),
            out@ == expanded(g@.take(i as int), n as int),
        decreases n - i,
    {
        assert(g@.take(i + 1).drop_last() =~= g@.take(i as int));
        match g[i] {
            Some(v) => {
                out.push(v);
            },
            None => {
                let ghost before = out@;
                let mut k: usize = 0;
                while k < needed
                    invariant
                        k <= needed,
                        out@ == before + Seq::new(k as nat, |j: int| 0u16),
                    decreases needed - k,
                {
                    out.push(0);
                    k += 1;
                    assert(out@ =~= before + Seq::new(k as nat, |j: int| 0u16));
                }
            },
        }
        i += 1;
    }
    assert(g@.take(n as int) =~= g@);
    out
}

impl Ipv6 {
    /// Reads an address such as `2001:db8::1` or `2001:db8::/64`.
    pub fn parse(s: &str) -> (r: Result<Ipv6, String>)
        ensures
            told(r) == parsed_ipv6(s@),
    {
        let (addr_str, prefix_str) = split_prefix(s);
        match Self::parse_addr(addr_str.as_str()) {
            Err(e) => Err(e),
            Ok(addr) => match parse_prefix(s, &prefix_str, 128) {
                Ok(prefix) => Ok(Ipv6 { addr, prefix }),
                Err(e) => Err(e),
            },
        }
    }

    pub fn from_raw(addr: [u8; 16], prefix: Option<u32>) -> (r: Self)
        ensures
            r@ == (AddrView { v6: true, addr: addr@, prefix }),
    {
        Self { addr, prefix }
    }

    /// Reads the address without a prefix.
    pub fn parse_addr(s: &str) -> (r: Result<[u8; 16], String>)
        ensures
            match (r, parsed_ipv6_addr(s@)) {
                (Ok(a), Ok(b)) => a@ == b,
                (Err(m), Err(e)) => m@ == e,
                _ => false,
            },
    {
        let parts = split_text(s, ':');
        assert(texts(parts@) == split(s@, ':'));
        if has_char(s, '.') {
            if parts.len() < 2 {
                let mut m = "invalid IPv6: '".to_string();
                m.append(s);
                m.append("'");
                return Err(m);
            }
            let last = parts[parts.len() - 1].as_str();
            assert(split(s@, ':').last() == last@);
            return match Ipv4::parse(last) {
                Err(e) => {
                    let mut m = "invalid IPv4 in IPv6: ".to_string();
                    m.append(e.as_str());
                    Err(m)
                },
                Ok(v4) => Ok(v4.to_mapped()),
            };
        }
        let g = match read_groups(&parts, s) {
            Ok(g) => g,
            Err(e) => {
                return Err(e);
            },
        };
        let full = expand_groups(&g);
        if full.len() != 8 {
            let mut m = "incorrect number of hextets in '".to_string();
            m.append(s);
            m.append("': ");
            push_decimal(&mut m, full.len() as u64);
            return Err(m);
        }
        let mut addr = [0u8; 16];
        let mut i: usize = 0;
        while i < 8
            invariant
                i <= 8,
                full@.len() == 8,
                forall|j: int|
                    0 <= j < 2 * i ==> #[trigger] addr@[j] == group_bytes(full@)[j],
            decreases 8 - i,
        {
            addr[2 * i] = (full[i] / 256) as u8;
            addr[2 * i + 1] = (full[i] % 256) as u8;
            i += 1;
        }
        assert(addr@ =~= group_bytes(full@));
        Ok(addr)
    }

    pub fn addr(&self) -> (r: [u8; 16])
        ensures
            r@ == self@.addr,
    {
        self.addr
    }

    /// The prefix length, 128 where none was given.
    pub fn prefix_bits(&self) -> (r: Option<u32>)
        ensures
            r == Some(self@.bits()),
    {
        match self.prefix {
            Some(p) => Some(p),
            None => Some(128),
        }
    }

    /// The network.
    pub fn to_lpm(&self) -> (r: [u8; 16])
        ensures
            r@ == self@.lpm(),
    {
        let prefix: u32 = match self.prefix {
            Some(p) => p,
            None => 128,
        };
        let mut addr = self.addr;
        let mut i: usize = 0;
        while i < 16
            invariant
                i <= 16,
                prefix == self@.bits(),
                forall|j: int| i <= j < 16 ==> addr@[j] == self.addr@[j],
                forall|j: int|
                    0 <= j < i ==> #[trigger] addr@[j] == masked_byte(
                        self.addr@[j],
                        prefix - 8 * j,
                    ),
            decreases 16 - i,
        {
            addr[i] = mask_byte(addr[i], prefix, 8 * i as u32);
            i += 1;
        }
        assert(addr@ =~= self@.lpm());
        addr
    }
}

/// An address of a rule.
#[derive(Clone, Copy, Debug)]
pub enum AclAddr {
    V4(Ipv4),
    V6(Ipv6),
}

impl View for AclAddr {
    type V = AddrView;

    open spec fn view(&self) -> AddrView {
        match self {
            AclAddr::V4(a) => a@,
            AclAddr::V6(a) => a@,
        }
    }
}

impl AclAddr {
    pub fn to_lpm(&self) -> (r: [u8; 16])
        ensures
            r@ == self@.lpm(),
    {
        match self {
            AclAddr::V4(v4) => v4.to_lpm(),
            AclAddr::V6(v6) => v6.to_lpm(),
        }
    }

    pub fn prefix_bits(&self) -> (r: Option<u32>)
        ensures
            r == Some(self@.bits()),
    {
        match self {
            AclAddr::V4(v4) => v4.prefix_bits(),
            AclAddr::V6(v6) => v6.prefix_bits(),
        }
    }

    pub fn family(&self) -> (r: u8)
        ensures
            r == self@.family(),
    {
        match self {
            AclAddr::V4(_) => AF_INET,
            AclAddr::V6(_) => AF_INET6,
        }
    }
}

/// The address that a text writes: IPv6 with a colon in it, else IPv4.
pub open spec fn parsed_acl_addr(s: Seq<char>) -> Result<AddrView, Seq<char>> {
    if has(s, ':') {
        parsed_ipv6(s)
    } else {
        parsed_ipv4(s)
    }
}

pub fn parse_acl_addr(s: &str) -> (r: Result<AclAddr, String>)
    ensures
        told(r) == parsed_acl_addr(s@),
{
    if has_char(s, ':') {
        match Ipv6::parse(s) {
            Ok(a) => Ok(AclAddr::V6(a)),
            Err(e) => Err(e),
        }
    } else {
        match Ipv4::parse(s) {
            Ok(a) => Ok(AclAddr::V4(a)),
            Err(e) => Err(e),
        }
    }
}

// ---- Rules ----

/// An L4 ACL rule.
#[derive(Clone, Copy, Debug)]
pub struct AclRule {
    pub action: AclAction,
    pub src: AclAddr,
    pub dst: AclAddr,
    pub proto: Proto,
    pub sport: PortSpec,
    pub dport: PortSpec,
    pub tcp_flags: u8,
    /// Packets per second; 0 leaves the rule without a limit of its own.
    pub rate: u32,
}

/// What an L4 ACL rule says.
#[verifier::ext_equal]
pub struct RuleView {
    pub action: AclAction,
    pub src: AddrView,
    pub dst: AddrView,
    pub proto: Proto,
    pub sport: PortSpec,
    pub dport: PortSpec,
    pub tcp_flags: u8,
    pub rate: u32,
}

impl View for AclRule {
    type V = RuleView;

    open spec fn view(&self) -> RuleView {
        RuleView {
            action: self.action,
            src: self.src@,
            dst: self.dst@,
            proto: self.proto,
            sport: self.sport,
            dport: self.dport,
            tcp_flags: self.tcp_flags,
            rate: self.rate,
        }
    }
}

/// The number of bytes that hold `bits` bits.
pub open spec fn bytes_for(bits: int) -> int {
    (bits + 7) / 8
}

/// The bytes of the destination beyond its first twelve that a prefix needs, at
/// most four.
pub open spec fn destination_bytes(dst: AddrView) -> int {
    let beyond = if dst.v6 {
        dst.bits() - 96
    } else {
        dst.bits() as int
    };
    if beyond <= 0 {
        0
    } else if beyond > 24 {
        4
    } else {
        bytes_for(beyond)
    }
}

/// The port in a key: 0 for any port, and for a protocol without ports.
pub open spec fn key_port(proto: Proto, port: PortSpec) -> u16 {
    match port {
        PortSpec::Exact(p) => if proto.portless() {
            0
        } else {
            p
        },
        PortSpec::Any => 0,
    }
}

/// The bytes that a port adds to the prefix.
pub open spec fn port_bytes(proto: Proto, port: PortSpec) -> int {
    if port is Exact && !proto.portless() {
        2
    } else {
        0
    }
}

impl RuleView {
    /// The prefix length: 34 bytes, the destination bytes that its prefix
    /// needs, and what is given of the ports. A rule on TCP flags reaches
    /// through the two flag bytes, which stand behind all else.
    pub open spec fn prefix(self) -> u32 {
        if self.tcp_flags != 0 {
            L4_ACL_PREFIX_LEN
        } else {
            (8 * (34 + destination_bytes(self.dst) + port_bytes(self.proto, self.dport)
                + port_bytes(self.proto, self.sport))) as u32
        }
    }

    /// The key of the rule in the ACL map.
    pub open spec fn key(self) -> Seq<u8> {
        le32(self.prefix()) + seq![self.src.family()] + self.src.lpm() + self.dst.lpm()
            + seq![self.proto.number()] + le16(key_port(self.proto, self.dport)) + le16(
            key_port(self.proto, self.sport),
        ) + seq![0u8, 0] + le16(0) + seq![0u8, 0]
    }

    /// The value of the rule in the ACL map.
    pub open spec fn value(self) -> Seq<u8> {
        le32(self.action.spec_code()) + le32(self.rate) + le32(0) + le32(0)
    }
}

impl AclRule {
    /// The prefix length of the rule's key, in bits.
    pub fn prefix_len(&self) -> (r: u32)
        ensures
            r == self@.prefix(),
            272 <= r <= 352,
    {
        if self.tcp_flags != 0 {
            return L4_ACL_PREFIX_LEN;
        }
        let mut bytes: u32 = 4 + 1 + 16 + 12 + 1;
        let bits: u32 = match self.dst.prefix_bits() {
            Some(b) => b,
            None => 0,
        };
        let beyond: u32 = match self.dst {
            AclAddr::V4(_) => bits,
            AclAddr::V6(_) => if bits > 96 {
                bits - 96
            } else {
                0
            },
        };
        let additional: u32 = if beyond > 24 {
            4
        } else {
            (beyond + 7) / 8
        };
        bytes = bytes + additional;
        if !self.proto.is_portless() {
            if let PortSpec::Exact(_) = self.dport {
                bytes = bytes + 2;
            }
            if let PortSpec::Exact(_) = self.sport {
                bytes = bytes + 2;
            }
        }
        bytes * 8
    }

    /// The key of the rule, 48 bytes, laid out by `L4AclKey`.
    pub fn build_key(&self) -> (r: Vec<u8>)
        ensures
            r@ == self@.key(),
            r@.len() == 48,
    {
        let src_addr = self.src.to_lpm();
        let dst_addr = self.dst.to_lpm();
        let portless = self.proto.is_portless();
        let src_port: u16 = match self.sport {
            PortSpec::Exact(p) => if portless {
                0
            } else {
                p
            },
            PortSpec::Any => 0,
        };
        let dst_port: u16 = match self.dport {
            PortSpec::Exact(p) => if portless {
                0
            } else {
                p
            },
            PortSpec::Any => 0,
        };
        let key = L4AclKey {
            prefix_len: self.prefix_len(),
            family: self.src.family(),
            src_addr,
            dst_addr,
            ip_proto: self.proto.ip_proto(),
            dst_port,
            src_port,
            tcp_flags_mask: 0,
            tcp_flags_value: 0,
            _pad: 0,
            _pad2: 0,
        };
        let bytes = key.to_bytes();
        let mut out: Vec<u8> = Vec::new();
        crate::bytes::push_all(&mut out, bytes.as_slice());
        assert(out@ =~= bytes@);
        assert(key.bytes() == self@.key());
        out
    }

    /// The value of the rule, 16 bytes: action, rate, backend group and flags.
    pub fn build_value(&self) -> (r: Vec<u8>)
        ensures
            r@ == self@.value(),
            r@.len() == 16,
    {
        let mut v: Vec<u8> = Vec::new();
        push_le32(&mut v, self.action.code());
        push_le32(&mut v, self.rate);
        push_le32(&mut v, 0);
        push_le32(&mut v, 0);
        assert(v@ =~= self@.value());
        v
    }
}

} // verus!
