//! The records shared by the packet program and the management tools.
use vstd::prelude::*;

use crate::bytes::{from_be32, le16, le32, le64};

verus! {

pub const ANY_PORT: u16 = 0;
pub const MAX_BACKENDS: u32 = 256;
pub const MAX_ACL_PREFIXES: u32 = 65_536;
pub const MAX_FLOW_ACL_ENTRIES: u32 = 262_144;
pub const MAX_CONNTRACK_ENTRIES: u32 = 1_048_576;
pub const MAX_RATE_LIMIT_ENTRIES: u32 = 262_144;
pub const MAX_COUNTERS: u32 = 32;
pub const EVENT_RINGBUF_BYTES: u32 = 16_777_216;
pub const MAX_L7_ACL_ENTRIES: u32 = 16_384;
pub const MAX_L4_ACL_ENTRIES: u32 = 16_384;
pub const MAX_VLAN_ACL_ENTRIES: u32 = 16_384;

pub const BPF_F_NO_PREALLOC: u32 = 1;
pub const AF_INET: u8 = 4;
pub const AF_INET6: u8 = 6;
pub const IP_LPM_FAMILY_BITS: u32 = 8;
pub const IPV4_MAX_PREFIX_BITS: u32 = 40;
pub const IPV6_MAX_PREFIX_BITS: u32 = 136;

pub const IP_PROTO_TCP: u8 = 6;
pub const IP_PROTO_UDP: u8 = 17;
pub const IP_PROTO_ICMP: u8 = 1;
pub const IP_PROTO_ICMPV6: u8 = 58;
pub const MAX_IPV6_EXT_HEADERS: usize = 4;
pub const XSKMAP_TYPE: u32 = 17;
pub const BPF_MAP_TYPE_HASH: u32 = 1;
pub const MAX_LB_SERVICES: u32 = 64;
pub const BACKEND_FLAG_UNHEALTHY: u32 = 0x1;

pub const IP_PROTO_HOPOPTS: u8 = 0;
pub const IP_PROTO_DSTOPTS: u8 = 60;
pub const IP_PROTO_FRAGMENT: u8 = 44;
pub const IP_PROTO_ROUTING: u8 = 43;
pub const IP_PROTO_DEST: u8 = 60;

// BPF map helper flags
pub const BPF_ANY: u64 = 0;

// XDP action verdicts
pub const XDP_ABORTED: u32 = 0;
pub const XDP_DROP: u32 = 1;
pub const XDP_PASS: u32 = 2;
pub const XDP_TX: u32 = 3;
pub const XDP_REDIRECT: u32 = 4;

// Ethernet
pub const ETH_HDR_LEN: usize = 14;
pub const ETH_TYPE_OFFSET: usize = 12;
pub const ETH_P_IP: u16 = 0x0800;
pub const ETH_P_IPV6: u16 = 0x86dd;
pub const ETH_P_8021Q: u16 = 0x8100;
pub const ETH_P_8021AD: u16 = 0x88A8;
pub const VLAN_HDR_LEN: usize = 4;
pub const MAX_VLAN_DEPTH: usize = 2;

// IPv4 fragmentation
pub const IP_MF: u16 = 0x2000;
pub const IP_FRAG_OFFSET_MASK: u16 = 0x1fff;

// TCP control flags
pub const TCP_FIN: u8 = 0x01;
pub const TCP_SYN: u8 = 0x02;
pub const TCP_RST: u8 = 0x04;
pub const TCP_PSH: u8 = 0x08;
pub const TCP_ACK: u8 = 0x10;
pub const TCP_URG: u8 = 0x20;

pub const TLS_HANDSHAKE: u8 = 0x16;
pub const TLS_CLIENT_HELLO: u8 = 0x01;

/// The bucket shared by all traffic of one source.
pub const GLOBAL_RATE_LIMIT_RULE_ID: u32 = 0;
/// The bucket of a source under a rule with a rate of its own.
pub const RATE_LIMIT_RULE_ID: u32 = 1;
pub const MAX_TOKENS: u64 = 65_536;
pub const REFILL_TOKENS_PER_SEC: u64 = 64_000;
pub const MAX_REFILL_ELAPSED_NS: u64 = 1_000_000_000;
pub const PACKET_COST: u64 = 1;
pub const NSEC_PER_SEC: u64 = 1_000_000_000;

/// Bits of an L4 ACL key that take part in prefix matching: all 48 bytes but
/// the length field.
pub const L4_ACL_PREFIX_LEN: u32 = 352;

pub const BPF_MAP_TYPE_ARRAY: u32 = 2;
pub const BPF_MAP_TYPE_PERCPU_HASH: u32 = 5;
pub const BPF_MAP_TYPE_PERCPU_ARRAY: u32 = 6;
pub const BPF_MAP_TYPE_LRU_PERCPU_HASH: u32 = 10;
pub const BPF_MAP_TYPE_LPM_TRIE: u32 = 11;
pub const BPF_MAP_TYPE_DEVMAP: u32 = 14;

pub const INVALID_BACKEND_ID: u32 = 0xffff_ffff;

// Record sizes in the kernel maps, trailing padding included.
pub const IP_LPM_DATA_SIZE: u32 = 20;
pub const IP_LPM_KEY_SIZE: u32 = 24;
pub const ACL_VALUE_SIZE: u32 = 16;
pub const FLOW_ACL_VALUE_SIZE: u32 = 16;
pub const FLOW_KEY_SIZE: u32 = 40;
pub const CONNTRACK_VALUE_SIZE: u32 = 48;
pub const RATE_LIMIT_KEY_SIZE: u32 = 24;
pub const RATE_LIMIT_VALUE_SIZE: u32 = 32;
pub const BACKEND_SIZE: u32 = 48;
pub const LB_META_SIZE: u32 = 8;
pub const EVENT_SIZE: u32 = 72;
pub const L4_ACL_KEY_SIZE: u32 = 48;

#[derive(Clone, Copy, Debug, PartialEq, Eq, Structural)]
pub enum MapKind {
    LpmTrie,
    LruPercpuHash,
    PercpuHash,
    Array,
    Ringbuf,
    XskMap,
    Hash,
    PercpuArray,
}

impl MapKind {
    pub open spec fn spec_code(self) -> u32 {
        match self {
            MapKind::LpmTrie => 1,
            MapKind::LruPercpuHash => 2,
            MapKind::PercpuHash => 3,
            MapKind::Array => 4,
            MapKind::Ringbuf => 5,
            MapKind::XskMap => 6,
            MapKind::Hash => 7,
            MapKind::PercpuArray => 8,
        }
    }

    /// The number of this kind.
    pub fn code(self) -> (r: u32)
        ensures
            r == self.spec_code(),
    {
        match self {
            MapKind::LpmTrie => 1,
            MapKind::LruPercpuHash => 2,
            MapKind::PercpuHash => 3,
            MapKind::Array => 4,
            MapKind::Ringbuf => 5,
            MapKind::XskMap => 6,
            MapKind::Hash => 7,
            MapKind::PercpuArray => 8,
        }
    }
}

#[derive(Clone, Copy, Debug, PartialEq, Eq, Structural)]
pub struct MapSpec {
    pub kind: MapKind,
    pub key_size: u32,
    pub value_size: u32,
    pub max_entries: u32,
    pub flags: u32,
}

impl MapSpec {
    pub fn new(
        kind: MapKind,
        key_size: u32,
        value_size: u32,
        max_entries: u32,
        flags: u32,
    ) -> (r: Self)
        ensures
            r == (MapSpec { kind, key_size, value_size, max_entries, flags }),
    {
        Self { kind, key_size, value_size, max_entries, flags }
    }
}

/// The IP ACL.
pub fn ip_acl_map() -> (r: MapSpec)
    ensures
        r == (MapSpec {
            kind: MapKind::LpmTrie,
            key_size: IP_LPM_KEY_SIZE,
            value_size: ACL_VALUE_SIZE,
            max_entries: MAX_ACL_PREFIXES,
            flags: BPF_F_NO_PREALLOC,
        }),
{
    MapSpec::new(MapKind::LpmTrie, IP_LPM_KEY_SIZE, ACL_VALUE_SIZE, MAX_ACL_PREFIXES, BPF_F_NO_PREALLOC)
}

/// The flow ACL.
pub fn flow_acl_map() -> (r: MapSpec)
    ensures
        r == (MapSpec {
            kind: MapKind::Hash,
            key_size: FLOW_KEY_SIZE,
            value_size: FLOW_ACL_VALUE_SIZE,
            max_entries: MAX_FLOW_ACL_ENTRIES,
            flags: 0,
        }),
{
    MapSpec::new(MapKind::Hash, FLOW_KEY_SIZE, FLOW_ACL_VALUE_SIZE, MAX_FLOW_ACL_ENTRIES, 0)
}

/// Tracked connections.
pub fn conntrack_map() -> (r: MapSpec)
    ensures
        r == (MapSpec {
            kind: MapKind::LruPercpuHash,
            key_size: FLOW_KEY_SIZE,
            value_size: CONNTRACK_VALUE_SIZE,
            max_entries: MAX_CONNTRACK_ENTRIES,
            flags: 0,
        }),
{
    MapSpec::new(MapKind::LruPercpuHash, FLOW_KEY_SIZE, CONNTRACK_VALUE_SIZE, MAX_CONNTRACK_ENTRIES, 0)
}

/// The buckets of rate-limited flows.
pub fn rate_limit_map() -> (r: MapSpec)
    ensures
        r == (MapSpec {
            kind: MapKind::PercpuHash,
            key_size: RATE_LIMIT_KEY_SIZE,
            value_size: RATE_LIMIT_VALUE_SIZE,
            max_entries: MAX_RATE_LIMIT_ENTRIES,
            flags: 0,
        }),
{
    MapSpec::new(MapKind::PercpuHash, RATE_LIMIT_KEY_SIZE, RATE_LIMIT_VALUE_SIZE, MAX_RATE_LIMIT_ENTRIES, 0)
}

/// The backends.
pub fn lb_backends_map() -> (r: MapSpec)
    ensures
        r == (MapSpec {
            kind: MapKind::Array,
            key_size: 4,
            value_size: BACKEND_SIZE,
            max_entries: MAX_BACKENDS,
            flags: 0,
        }),
{
    MapSpec::new(MapKind::Array, 4, BACKEND_SIZE, MAX_BACKENDS, 0)
}

/// What is known of the backends together.
pub fn lb_meta_map() -> (r: MapSpec)
    ensures
        r == (MapSpec {
            kind: MapKind::Array,
            key_size: 4,
            value_size: LB_META_SIZE,
            max_entries: 1,
            flags: 0,
        }),
{
    MapSpec::new(MapKind::Array, 4, LB_META_SIZE, 1, 0)
}

/// The ring buffer of events.
pub fn events_map() -> (r: MapSpec)
    ensures
        r == (MapSpec {
            kind: MapKind::Ringbuf,
            key_size: 0,
            value_size: 0,
            max_entries: EVENT_RINGBUF_BYTES,
            flags: 0,
        }),
{
    MapSpec::new(MapKind::Ringbuf, 0, 0, EVENT_RINGBUF_BYTES, 0)
}

/// The mask of published events.
pub fn event_mask_map() -> (r: MapSpec)
    ensures
        r == (MapSpec {
            kind: MapKind::Array,
            key_size: 4,
            value_size: 8,
            max_entries: 1,
            flags: 0,
        }),
{
    MapSpec::new(MapKind::Array, 4, 8, 1, 0)
}

/// The counters.
pub fn counters_map() -> (r: MapSpec)
    ensures
        r == (MapSpec {
            kind: MapKind::PercpuArray,
            key_size: 4,
            value_size: 8,
            max_entries: MAX_COUNTERS,
            flags: 0,
        }),
{
    MapSpec::new(MapKind::PercpuArray, 4, 8, MAX_COUNTERS, 0)
}

#[derive(Clone, Copy, Debug, PartialEq, Eq, Structural)]
pub enum AclAction {
    Allow,
    Drop,
    Redirect,
    Inspect,
}

impl View for AclAction {
    type V = AclAction;

    open spec fn view(&self) -> AclAction {
        *self
    }
}

impl AclAction {
    pub open spec fn spec_code(self) -> u32 {
        match self {
            AclAction::Allow => 0,
            AclAction::Drop => 1,
            AclAction::Redirect => 2,
            AclAction::Inspect => 3,
        }
    }

    /// The number of this action in the kernel maps.
    pub fn code(self) -> (r: u32)
        ensures
            r == self.spec_code(),
    {
        match self {
            AclAction::Allow => 0,
            AclAction::Drop => 1,
            AclAction::Redirect => 2,
            AclAction::Inspect => 3,
        }
    }
}

#[derive(Clone, Copy, Debug, PartialEq, Eq)]
pub struct IpLpmData {
    pub family: u8,
    pub addr: [u8; 16],
    pub _pad: [u8; 3],
}

#[derive(Clone, Copy, Debug, PartialEq, Eq)]
pub struct IpLpmKey {
    pub prefix_len: u32,
    pub data: IpLpmData,
}

impl IpLpmKey {
    /// A key for an IPv4 prefix: the address fills the first four bytes.
    pub fn ipv4(prefix_len: u32, addr_be: [u8; 4]) -> (r: Self)
        requires
            IP_LPM_FAMILY_BITS + prefix_len <= u32::MAX,
        ensures
            r.prefix_len == IP_LPM_FAMILY_BITS + prefix_len,
            r.data.family == AF_INET,
            r.data.addr@ == addr_be@ + Seq::new(12, |i: int| 0u8),
            r.data._pad@ == seq![0u8, 0, 0],
    {
        let data = IpLpmData {
            family: AF_INET,
            addr: [
                addr_be[0],
                addr_be[1],
                addr_be[2],
                addr_be[3],
                0,
                0,
                0,
                0,
                0,
                0,
                0,
                0,
                0,
                0,
                0,
                0,
            ],
            _pad: [0, 0, 0],
        };
        Self { prefix_len: IP_LPM_FAMILY_BITS + prefix_len, data }
    }

    /// A key for an IPv6 prefix.
    pub fn ipv6(prefix_len: u32, addr_be: [u8; 16]) -> (r: Self)
        requires
            IP_LPM_FAMILY_BITS + prefix_len <= u32::MAX,
        ensures
            r.prefix_len == IP_LPM_FAMILY_BITS + prefix_len,
            r.data.family == AF_INET6,
            r.data.addr@ == addr_be@,
            r.data._pad@ == seq![0u8, 0, 0],
    {
        let data = IpLpmData { family: AF_INET6, addr: addr_be, _pad: [0, 0, 0] };
        Self { prefix_len: IP_LPM_FAMILY_BITS + prefix_len, data }
    }
}

/// The key of the L4 ACL trie. The trie compares a prefix of the bytes that
/// follow `prefix_len`, so `dst_port` stands before `src_port`: a prefix can
/// then end behind the destination port and leave the source port open.
#[derive(Clone, Copy, Debug)]
pub struct L4AclKey {
    pub prefix_len: u32,
    pub family: u8,
    pub src_addr: [u8; 16],
    pub dst_addr: [u8; 16],
    pub ip_proto: u8,
    pub dst_port: u16,
    pub src_port: u16,
    pub tcp_flags_mask: u8,
    pub tcp_flags_value: u8,
    pub _pad: u16,
    pub _pad2: u16,
}

impl L4AclKey {
    /// The bytes of the key in the kernel map. `_pad2` is always written as
    /// zero.
    pub open spec fn bytes(self) -> Seq<u8> {
        le32(self.prefix_len) + seq![self.family] + self.src_addr@ + self.dst_addr@
            + seq![self.ip_proto] + le16(self.dst_port) + le16(self.src_port)
            + seq![self.tcp_flags_mask, self.tcp_flags_value] + le16(self._pad) + seq![0u8, 0]
    }

    /// The key as the 48 bytes of the kernel map, numbers in little-endian
    /// order.
    pub fn to_bytes(&self) -> (b: [u8; 48])
        ensures
            b@ == self.bytes(),
    {
        let mut b = [0u8; 48];
        b[0] = (self.prefix_len % 256) as u8;
        b[1] = (self.prefix_len / 256 % 256) as u8;
        b[2] = (self.prefix_len / 65536 % 256) as u8;
        b[3] = (self.prefix_len / 16777216) as u8;
        b[4] = self.family;
        let ghost head = b@.take(5);
        assert(head =~= le32(self.prefix_len) + seq![self.family]);
        let mut i: usize = 0;
        while i < 16
            invariant
                i <= 16,
                b@.len() == 48,
                b@.take(5) == head,
                head.len() == 5,
                forall|j: int| 0 <= j < i ==> b@[5 + j] == self.src_addr@[j],
                forall|j: int| 0 <= j < i ==> b@[21 + j] == self.dst_addr@[j],
                forall|j: int| 37 <= j < 48 ==> b@[j] == 0u8,
            decreases 16 - i,
        {
            b[5 + i] = self.src_addr[i];
            b[21 + i] = self.dst_addr[i];
            i += 1;
            assert(b@.take(5) =~= head);
        }
        b[37] = self.ip_proto;
        b[38] = (self.dst_port % 256) as u8;
        b[39] = (self.dst_port / 256) as u8;
        b[40] = (self.src_port % 256) as u8;
        b[41] = (self.src_port / 256) as u8;
        b[42] = self.tcp_flags_mask;
        b[43] = self.tcp_flags_value;
        b[44] = (self._pad % 256) as u8;
        b[45] = (self._pad / 256) as u8;
        assert(b@.take(5) =~= head);
        assert(b@.subrange(5, 21) =~= self.src_addr@);
        assert(b@.subrange(21, 37) =~= self.dst_addr@);
        assert(b@.subrange(37, 48) =~= seq![self.ip_proto] + le16(self.dst_port) + le16(
            self.src_port,
        ) + seq![self.tcp_flags_mask, self.tcp_flags_value] + le16(self._pad) + seq![0u8, 0]);
        assert(b@ =~= b@.take(5) + b@.subrange(5, 21) + b@.subrange(21, 37) + b@.subrange(37, 48));
        assert(b@ =~= self.bytes());
        b
    }
}

/// What an L4 ACL rule does with the packets it matches.
#[derive(Clone, Copy, Debug, PartialEq, Eq, Structural)]
pub struct L4AclValue {
    pub action: AclAction,
    /// Packets per second of one source; 0 leaves the rule without a limit.
    pub rate: u32,
    pub backend_group: u32,
    pub flags: u32,
}

#[derive(Clone, Copy, Debug, PartialEq, Eq, Structural)]
pub struct AclValue {
    pub action: AclAction,
    pub priority: u32,
    pub backend_group: u32,
    pub flags: u32,
}

#[derive(Clone, Copy, Debug, PartialEq, Eq, Structural)]
pub struct FlowAclValue {
    pub action: AclAction,
    pub priority: u32,
    pub backend_group: u32,
    pub flags: u32,
}

#[derive(Clone, Copy, Debug, PartialEq, Eq)]
pub struct FlowKey {
    pub src_addr: [u8; 16],
    pub dst_addr: [u8; 16],
    pub src_port: u16,
    pub dst_port: u16,
    pub family: u8,
    pub ip_proto: u8,
}

#[derive(Clone, Copy, Debug, PartialEq, Eq, Structural)]
pub enum ConntrackState {
    New,
    Established,
    Closing,
    Closed,
}

#[derive(Clone, Copy, Debug, PartialEq, Eq, Structural)]
pub struct ConntrackValue {
    pub state: ConntrackState,
    pub flags: u32,
    pub backend_id: u32,
    pub _pad: u32,
    pub packets: u64,
    pub bytes: u64,
    pub first_seen_ns: u64,
    pub last_seen_ns: u64,
}

#[derive(Clone, Copy, Debug, PartialEq, Eq)]
pub struct RateLimitKey {
    pub addr: [u8; 16],
    pub rule_id: u32,
    pub family: u8,
    pub _pad: [u8; 3],
}

#[derive(Clone, Copy, Debug, PartialEq, Eq, Structural)]
pub struct RateLimitValue {
    pub tokens: u64,
    pub last_refill_ns: u64,
    pub packet_count: u64,
    pub byte_count: u64,
}

#[derive(Clone, Copy, Debug, PartialEq, Eq)]
pub struct Backend {
    pub addr: [u8; 16],
    pub port: u16,
    pub family: u8,
    pub proto: u8,
    pub ifindex: u32,
    pub weight: u32,
    pub backend_group: u32,
    pub flags: u32,
    pub mac: [u8; 6],
    pub _pad: [u8; 2],
}

impl Backend {
    /// A slot of the backend table is in use when it names an interface.
    pub open spec fn configured(self) -> bool {
        self.ifindex != 0
    }

    /// The unhealthy flag is the lowest bit of `flags`.
    pub open spec fn unhealthy(self) -> bool {
        self.flags % 2 == 1
    }

    pub fn is_configured(self) -> (r: bool)
        ensures
            r == self.configured(),
    {
        self.ifindex != 0
    }

    pub fn is_unhealthy(self) -> (r: bool)
        ensures
            r == self.unhealthy(),
    {
        let flags = self.flags;
        assert((flags & 0x1u32 != 0) == (flags % 2 == 1)) by (bit_vector);
        flags & BACKEND_FLAG_UNHEALTHY != 0
    }
}

#[derive(Clone, Copy, Debug, PartialEq, Eq, Structural)]
pub struct LbMeta {
    pub num_backends: u32,
    pub _pad: u32,
}

/// A port in both halves of a word.
pub open spec fn port_word(port: u16) -> u32 {
    port as u32 ^ ((port as u32) << 16u32)
}

/// The exclusive or of the first `n` four-byte words of both addresses.
pub open spec fn address_words(src: Seq<u8>, dst: Seq<u8>, n: nat) -> u32
    decreases n,
{
    if n == 0 {
        0
    } else {
        let m = (n - 1) as nat;
        address_words(src, dst, m) ^ (from_be32(src.skip(4 * m as int)) ^ from_be32(dst.skip(4 * m as int)))
    }
}

/// The ECMP hash of a flow.
pub open spec fn xor_hash_of(flow: FlowKey) -> u32 {
    (flow.ip_proto as u32 ^ (port_word(flow.src_port) ^ port_word(flow.dst_port))) ^ address_words(
        flow.src_addr@,
        flow.dst_addr@,
        4,
    )
}

/// ECMP hash over the five fields that identify a flow.
pub fn ecmp_hash(flow: &FlowKey) -> (r: u32)
    ensures
        r == xor_hash_of(*flow),
{
    xor_hash(flow)
}

fn xor_hash(flow: &FlowKey) -> (r: u32)
    ensures
        r == xor_hash_of(*flow),
{
    let proto: u32 = flow.ip_proto as u32;
    let sp: u32 = flow.src_port as u32 ^ ((flow.src_port as u32) << 16);
    let dp: u32 = flow.dst_port as u32 ^ ((flow.dst_port as u32) << 16);
    let mut hash: u32 = proto;
    hash = hash ^ sp;
    hash = hash ^ dp;
    let base: u32 = hash;
    assert(base == proto ^ (sp ^ dp)) by (bit_vector)
        requires
            base == (proto ^ sp) ^ dp,
    ;
    assert(base == base ^ 0u32) by (bit_vector);
    let mut i: usize = 0;
    while i < 16
        invariant
            i <= 16,
            i % 4 == 0,
            hash == base ^ address_words(flow.src_addr@, flow.dst_addr@, (i / 4) as nat),
        decreases 16 - i,
    {
        let s: u32 = crate::bytes::read_be32(flow.src_addr.as_slice(), i);
        let d: u32 = crate::bytes::read_be32(flow.dst_addr.as_slice(), i);
        let ghost before = address_words(flow.src_addr@, flow.dst_addr@, (i / 4) as nat);
        let old_hash: u32 = hash;
        hash = hash ^ s;
        hash = hash ^ d;
        assert(hash == base ^ (before ^ (s ^ d))) by (bit_vector)
            requires
                old_hash == base ^ before,
                hash == (old_hash ^ s) ^ d,
        ;
        i += 4;
        assert(4 * (i / 4 - 1) == i - 4);
    }
    hash
}

/// The same flow seen from the other end.
pub open spec fn reversed(flow: FlowKey) -> FlowKey {
    FlowKey {
        src_addr: flow.dst_addr,
        dst_addr: flow.src_addr,
        src_port: flow.dst_port,
        dst_port: flow.src_port,
        family: flow.family,
        ip_proto: flow.ip_proto,
    }
}

proof fn lemma_address_words_symmetric(src: Seq<u8>, dst: Seq<u8>, n: nat)
    ensures
        address_words(src, dst, n) == address_words(dst, src, n),
    decreases n,
{
    if n > 0 {
        let m = (n - 1) as nat;
        lemma_address_words_symmetric(src, dst, m);
        let a = from_be32(src.skip(4 * m as int));
        let b = from_be32(dst.skip(4 * m as int));
        assert(a ^ b == b ^ a) by (bit_vector);
    }
}

/// Both directions of a flow have the same hash, so they reach the same
/// backend.
pub proof fn hash_ignores_direction(flow: FlowKey)
    ensures
        xor_hash_of(reversed(flow)) == xor_hash_of(flow),
{
    lemma_address_words_symmetric(flow.src_addr@, flow.dst_addr@, 4);
    let a = port_word(flow.src_port);
    let b = port_word(flow.dst_port);
    assert(a ^ b == b ^ a) by (bit_vector);
}

#[derive(Clone, Copy, Debug, PartialEq, Eq, Structural)]
pub enum EventKind {
    PacketDrop,
    RateLimited,
    ConntrackMiss,
    BackendSelected,
    SlowPath,
    ServiceMatched,
    VlanDetected,
    PacketAllow,
}

impl EventKind {
    pub open spec fn spec_code(self) -> u32 {
        match self {
            EventKind::PacketDrop => 1,
            EventKind::RateLimited => 2,
            EventKind::ConntrackMiss => 3,
            EventKind::BackendSelected => 4,
            EventKind::SlowPath => 5,
            EventKind::ServiceMatched => 6,
            EventKind::VlanDetected => 7,
            EventKind::PacketAllow => 8,
        }
    }

    /// The number of this kind in an event record.
    pub fn code(self) -> (r: u32)
        ensures
            r == self.spec_code(),
    {
        match self {
            EventKind::PacketDrop => 1,
            EventKind::RateLimited => 2,
            EventKind::ConntrackMiss => 3,
            EventKind::BackendSelected => 4,
            EventKind::SlowPath => 5,
            EventKind::ServiceMatched => 6,
            EventKind::VlanDetected => 7,
            EventKind::PacketAllow => 8,
        }
    }
}

#[derive(Clone, Copy, Debug, PartialEq, Eq)]
pub struct Event {
    pub ts_ns: u64,
    pub kind: EventKind,
    pub ifindex: u32,
    pub flow: FlowKey,
    pub aux0: u64,
    pub aux1: u64,
}

impl Event {
    /// The bytes of the event in the ring buffer, with `pad` for the two bytes
    /// of padding behind the flow.
    pub open spec fn bytes(self, pad: Seq<u8>) -> Seq<u8> {
        le64(self.ts_ns) + le32(self.kind.spec_code()) + le32(self.ifindex) + self.flow.src_addr@
            + self.flow.dst_addr@ + le16(self.flow.src_port) + le16(self.flow.dst_port) + (seq![
            self.flow.family,
            self.flow.ip_proto,
        ] + pad) + le64(self.aux0) + le64(self.aux1)
    }
}

#[derive(Clone, Copy, Debug, PartialEq, Eq, Structural)]
pub enum CounterId {
    RxPackets,
    RxBytes,
    Passed,
    Dropped,
    Redirected,
    ConntrackHit,
    ConntrackMiss,
    AclDrop,
    AclAllow,
    AclRedirect,
    RateLimited,
    ParseError,
    TcFragment,
    SlowPath,
    HostFound,
    RxIpv4,
    RxIpv6,
    RxIcmpv6,
    RxTcp,
    RxUdp,
    Unknown,
    BackendUnavailable,
    RedirectFailed,
    BackendSelected,
    ServiceMiss,
    ServiceHit,
    RxVlan,
}

impl CounterId {
    pub open spec fn spec_code(self) -> u32 {
        match self {
            CounterId::RxPackets => 0,
            CounterId::RxBytes => 1,
            CounterId::Passed => 2,
            CounterId::Dropped => 3,
            CounterId::Redirected => 4,
            CounterId::ConntrackHit => 5,
            CounterId::ConntrackMiss => 6,
            CounterId::AclDrop => 7,
            CounterId::AclAllow => 8,
            CounterId::AclRedirect => 9,
            CounterId::RateLimited => 10,
            CounterId::ParseError => 11,
            CounterId::TcFragment => 12,
            CounterId::SlowPath => 13,
            CounterId::HostFound => 14,
            CounterId::RxIpv4 => 15,
            CounterId::RxIpv6 => 16,
            CounterId::RxIcmpv6 => 17,
            CounterId::RxTcp => 18,
            CounterId::RxUdp => 19,
            CounterId::Unknown => 20,
            CounterId::BackendUnavailable => 21,
            CounterId::RedirectFailed => 22,
            CounterId::BackendSelected => 23,
            CounterId::ServiceMiss => 24,
            CounterId::ServiceHit => 25,
            CounterId::RxVlan => 26,
        }
    }

    /// The slot of this counter in the counter table.
    pub fn code(self) -> (r: u32)
        ensures
            r == self.spec_code(),
    {
        match self {
            CounterId::RxPackets => 0,
            CounterId::RxBytes => 1,
            CounterId::Passed => 2,
            CounterId::Dropped => 3,
            CounterId::Redirected => 4,
            CounterId::ConntrackHit => 5,
            CounterId::ConntrackMiss => 6,
            CounterId::AclDrop => 7,
            CounterId::AclAllow => 8,
            CounterId::AclRedirect => 9,
            CounterId::RateLimited => 10,
            CounterId::ParseError => 11,
            CounterId::TcFragment => 12,
            CounterId::SlowPath => 13,
            CounterId::HostFound => 14,
            CounterId::RxIpv4 => 15,
            CounterId::RxIpv6 => 16,
            CounterId::RxIcmpv6 => 17,
            CounterId::RxTcp => 18,
            CounterId::RxUdp => 19,
            CounterId::Unknown => 20,
            CounterId::BackendUnavailable => 21,
            CounterId::RedirectFailed => 22,
            CounterId::BackendSelected => 23,
            CounterId::ServiceMiss => 24,
            CounterId::ServiceHit => 25,
            CounterId::RxVlan => 26,
        }
    }
}

#[derive(Clone, Copy, Debug)]
pub struct LbServiceKey {
    pub addr: [u8; 16],
    pub port: u16,
    pub proto: u8,
    pub family: u8,
}

#[derive(Clone, Copy, Debug)]
pub struct LbService {
    pub backend_group: u32,
    pub scheduler: u8,
    pub flags: u8,
    pub _pad: u16,
    pub vip_addr: [u8; 16],
    pub vip_port: u16,
}

/// The key of the VLAN ACL. With `inner_vlan` 0 a rule speaks of single-tagged
/// frames; otherwise of frames with both tags.
#[derive(Clone, Copy, Debug, PartialEq, Eq)]
pub struct VlanAclKey {
    pub outer_vlan: u16,
    pub inner_vlan: u16,
    pub _pad: [u8; 4],
}

impl VlanAclKey {
    /// The bytes of the key in the kernel map.
    pub open spec fn bytes(self) -> Seq<u8> {
        le16(self.outer_vlan) + le16(self.inner_vlan) + self._pad@
    }
}

#[derive(Clone, Copy, Debug, PartialEq, Eq, Structural)]
pub struct VlanAclValue {
    pub action: AclAction,
    pub rate: u32,
}

/// The context that the kernel hands to the packet program.
#[allow(non_camel_case_types)]
#[derive(Clone, Copy, Debug)]
pub struct xdp_md {
    pub data: u32,
    pub data_end: u32,
    pub data_meta: u32,
    pub ingress_ifindex: u32,
    pub rx_queue_index: u32,
    pub egress_ifindex: u32,
}

#[derive(Clone, Copy, Debug, PartialEq, Eq)]
pub struct Packet {
    pub flow: FlowKey,
    pub len: u64,
    pub tcp_flags: u8,
    pub is_fragment: bool,
    pub payload_offset: usize,
    pub l3_offset: usize,
    pub l4_offset: usize,
    pub vlan_depth: u8,
    pub vlan: [VlanTag; 2],
}

#[derive(Clone, Copy, Debug, PartialEq, Eq, Structural)]
pub struct VlanTag {
    pub id: u16,
    pub pcp: u8,
    pub dei: bool,
}

#[derive(Clone, Copy, Debug, PartialEq, Eq, Structural)]
pub enum ParseError {
    Unsupported,
    Malformed,
}

} // verus!
