//! Addresses and counters as texts.
use vstd::prelude::*;
use vstd::string::StringExecFns;

use crate::maps::CounterId;
use crate::packet::be16_at;
use crate::text::{
    decimal, decimal_text, hex, hex_text, join, join_texts, push_decimal, texts,
};

verus! {

/// The last four bytes of an address as four numbers between dots.
pub open spec fn dotted(addr: Seq<u8>) -> Seq<char> {
    decimal(addr[12] as int) + "."@ + decimal(addr[13] as int) + "."@ + decimal(addr[14] as int)
        + "."@ + decimal(addr[15] as int)
}

/// The first `n` groups of an address in base 16.
pub open spec fn group_texts(addr: Seq<u8>, n: nat) -> Seq<Seq<char>> {
    Seq::new(n, |i: int| hex(be16_at(addr, 2 * i) as int))
}

/// An address as a text: dotted for family 4, else eight groups between
/// colons.
pub open spec fn ip_text(addr: Seq<u8>, family: u8) -> Seq<char> {
    if family == 4 {
        dotted(addr)
    } else {
        join(group_texts(addr, 8), ":"@)
    }
}

/// The last four bytes of an address as four numbers between dots.
pub fn format_mapped(addr: &[u8; 16]) -> (r: String)
    ensures
        r@ == dotted(addr@),
{
    let mut s = decimal_text(addr[12] as u64);
    s.append(".");
    push_decimal(&mut s, addr[13] as u64);
    s.append(".");
    push_decimal(&mut s, addr[14] as u64);
    s.append(".");
    push_decimal(&mut s, addr[15] as u64);
    s
}

/// An address as a text.
pub fn format_ip(addr: &[u8; 16], family: u8) -> (r: String)
    ensures
        r@ == ip_text(addr@, family),
{
    if family == 4 {
        return format_mapped(addr);
    }
    let mut parts: Vec<String> = Vec::new();
    let mut i: usize = 0;
    assert(texts(parts@) =~= group_texts(addr@, 0));
    while i < 8
        invariant
            i <= 8,
            texts(parts@) == group_texts(addr@, i as nat),
        decreases 8 - i,
    {
        let val: u16 = crate::bytes::read_be16(addr.as_slice(), 2 * i);
        let t = hex_text(val as u64);
        let ghost before = parts@;
        parts.push(t);
        assert(texts(parts@) =~= texts(before).push(t@));
        i += 1;
        assert(group_texts(addr@, i as nat) =~= group_texts(addr@, (i - 1) as nat).push(t@));
    }
    assert(parts@.skip(0) =~= parts@);
    join_texts(&parts, 0, ":")
}

/// The name of a counter.
pub open spec fn counter_text(c: CounterId) -> Seq<char> {
    match c {
        CounterId::RxPackets => "RxPackets"@,
        CounterId::RxBytes => "RxBytes"@,
        CounterId::Passed => "Passed"@,
        CounterId::Dropped => "Dropped"@,
        CounterId::Redirected => "Redirected"@,
        CounterId::ConntrackHit => "ConntrackHit"@,
        CounterId::ConntrackMiss => "ConntrackMiss"@,
        CounterId::AclDrop => "AclDrop"@,
        CounterId::AclAllow => "AclAllow"@,
        CounterId::AclRedirect => "AclRedirect"@,
        CounterId::RateLimited => "RateLimited"@,
        CounterId::ParseError => "ParseError"@,
        CounterId::TcFragment => "TcFragment"@,
        CounterId::SlowPath => "SlowPath"@,
        CounterId::HostFound => "HostFound"@,
        CounterId::RxIpv4 => "RxIpv4"@,
        CounterId::RxIpv6 => "RxIpv6"@,
        CounterId::RxIcmpv6 => "RxIcmpv6"@,
        CounterId::RxTcp => "RxTcp"@,
        CounterId::RxUdp => "RxUdp"@,
        CounterId::Unknown => "Unknown"@,
        CounterId::BackendUnavailable => "BackendUnavailable"@,
        CounterId::RedirectFailed => "RedirectFailed"@,
        CounterId::BackendSelected => "BackendSelected"@,
        CounterId::ServiceMiss => "ServiceMiss"@,
        CounterId::ServiceHit => "ServiceHit"@,
        CounterId::RxVlan => "RxVlan"@,
    }
}

/// The name of a counter.
pub fn counter_name(c: CounterId) -> (r: &'static str)
    ensures
        r@ == counter_text(c),
{
    match c {
        CounterId::RxPackets => "RxPackets",
        CounterId::RxBytes => "RxBytes",
        CounterId::Passed => "Passed",
        CounterId::Dropped => "Dropped",
        CounterId::Redirected => "Redirected",
        CounterId::ConntrackHit => "ConntrackHit",
        CounterId::ConntrackMiss => "ConntrackMiss",
        CounterId::AclDrop => "AclDrop",
        CounterId::AclAllow => "AclAllow",
        CounterId::AclRedirect => "AclRedirect",
        CounterId::RateLimited => "RateLimited",
        CounterId::ParseError => "ParseError",
        CounterId::TcFragment => "TcFragment",
        CounterId::SlowPath => "SlowPath",
        CounterId::HostFound => "HostFound",
        CounterId::RxIpv4 => "RxIpv4",
        CounterId::RxIpv6 => "RxIpv6",
        CounterId::RxIcmpv6 => "RxIcmpv6",
        CounterId::RxTcp => "RxTcp",
        CounterId::RxUdp => "RxUdp",
        CounterId::Unknown => "Unknown",
        CounterId::BackendUnavailable => "BackendUnavailable",
        CounterId::RedirectFailed => "RedirectFailed",
        CounterId::BackendSelected => "BackendSelected",
        CounterId::ServiceMiss => "ServiceMiss",
        CounterId::ServiceHit => "ServiceHit",
        CounterId::RxVlan => "RxVlan",
    }
}

} // verus!
