//! Fixed-width integers as byte strings.
use vstd::prelude::*;

verus! {

/// `v` in little-endian order, two bytes.
pub open spec fn le16(v: u16) -> Seq<u8> {
    seq![(v % 256) as u8, (v / 256) as u8]
}

/// `v` in little-endian order, four bytes.
pub open spec fn le32(v: u32) -> Seq<u8> {
    seq![
        (v % 256) as u8,
        (v / 256 % 256) as u8,
        (v / 65536 % 256) as u8,
        (v / 16777216) as u8,
    ]
}

/// `v` in little-endian order, eight bytes.
pub open spec fn le64(v: u64) -> Seq<u8> {
    le32((v % 0x1_0000_0000) as u32) + le32((v / 0x1_0000_0000) as u32)
}

/// The number whose little-endian form is the first two bytes of `s`.
pub open spec fn from_le16(s: Seq<u8>) -> u16 {
    (s[0] + 256 * s[1]) as u16
}

/// The number whose little-endian form is the first four bytes of `s`.
pub open spec fn from_le32(s: Seq<u8>) -> u32 {
    (s[0] + 256 * s[1] + 65536 * s[2] + 16777216 * s[3]) as u32
}

/// The number whose little-endian form is the first eight bytes of `s`.
pub open spec fn from_le64(s: Seq<u8>) -> u64 {
    (from_le32(s) + 0x1_0000_0000 * from_le32(s.skip(4))) as u64
}

/// The number whose big-endian form is the first two bytes of `s`.
pub open spec fn from_be16(s: Seq<u8>) -> u16 {
    (256 * s[0] + s[1]) as u16
}

/// The number whose big-endian form is the first four bytes of `s`.
pub open spec fn from_be32(s: Seq<u8>) -> u32 {
    (16777216 * s[0] + 65536 * s[1] + 256 * s[2] + s[3]) as u32
}

/// Reading back a written 16-bit number gives the number.
pub proof fn lemma_le16_roundtrip(v: u16)
    ensures
        from_le16(le16(v)) == v,
        le16(v).len() == 2,
{
}

/// Reading back a written 32-bit number gives the number.
pub proof fn lemma_le32_roundtrip(v: u32)
    ensures
        from_le32(le32(v)) == v,
        le32(v).len() == 4,
{
    let a = v as int;
    assert(a / 65536 == (a / 256) / 256);
    assert(a / 16777216 == (a / 65536) / 256);
}

/// Reading back a written 64-bit number gives the number.
pub proof fn lemma_le64_roundtrip(v: u64)
    ensures
        from_le64(le64(v)) == v,
        le64(v).len() == 8,
{
    let lo = (v % 0x1_0000_0000) as u32;
    let hi = (v / 0x1_0000_0000) as u32;
    lemma_le32_roundtrip(lo);
    lemma_le32_roundtrip(hi);
    let s = le64(v);
    assert(s.skip(4) =~= le32(hi));
    assert(s[0] == le32(lo)[0] && s[1] == le32(lo)[1] && s[2] == le32(lo)[2] && s[3] == le32(lo)[3]);
}

/// Appends `v` in little-endian order.
pub fn push_le16(out: &mut Vec<u8>, v: u16)
    ensures
        final(out)@ == old(out)@ + le16(v),
{
    out.push((v % 256) as u8);
    out.push((v / 256) as u8);
}

/// Appends `v` in little-endian order.
pub fn push_le32(out: &mut Vec<u8>, v: u32)
    ensures
        final(out)@ == old(out)@ + le32(v),
{
    out.push((v % 256) as u8);
    out.push((v / 256 % 256) as u8);
    out.push((v / 65536 % 256) as u8);
    out.push((v / 16777216) as u8);
}

/// Appends `v` in little-endian order.
pub fn push_le64(out: &mut Vec<u8>, v: u64)
    ensures
        final(out)@ == old(out)@ + le64(v),
{
    push_le32(out, (v % 0x1_0000_0000) as u32);
    push_le32(out, (v / 0x1_0000_0000) as u32);
}

/// Appends the bytes of `s`.
pub fn push_all(out: &mut Vec<u8>, s: &[u8])
    ensures
        final(out)@ == old(out)@ + s@,
{
    let n: usize = s.len();
    let mut i: usize = 0;
    while i < n
        invariant
            i <= n,
            n == s@.len(),
            out@ == old(out)@ + s@.take(i as int),
        decreases n - i,
    {
        out.push(s[i]);
        i += 1;
        assert(s@.take(i as int) =~= s@.take(i - 1).push(s@[i - 1]));
    }
    assert(s@.take(n as int) =~= s@);
}

/// The little-endian number at `at`.
pub fn read_le16(b: &[u8], at: usize) -> (r: u16)
    requires
        at + 2 <= b@.len(),
    ensures
        r == from_le16(b@.skip(at as int)),
{
    b[at] as u16 + 256 * (b[at + 1] as u16)
}

/// The little-endian number at `at`.
pub fn read_le32(b: &[u8], at: usize) -> (r: u32)
    requires
        at + 4 <= b@.len(),
    ensures
        r == from_le32(b@.skip(at as int)),
{
    b[at] as u32 + 256 * (b[at + 1] as u32) + 65536 * (b[at + 2] as u32) + 16777216 * (b[at
        + 3] as u32)
}

/// The little-endian number at `at`.
pub fn read_le64(b: &[u8], at: usize) -> (r: u64)
    requires
        at + 8 <= b@.len(),
    ensures
        r == from_le64(b@.skip(at as int)),
{
    let n: usize = b.len();
    assert(at + 8 <= n);
    let lo: u32 = read_le32(b, at);
    let hi: u32 = read_le32(b, at + 4);
    assert(b@.skip(at as int).skip(4) =~= b@.skip(at + 4));
    lo as u64 + 0x1_0000_0000 * (hi as u64)
}

/// The big-endian number at `at`.
pub fn read_be16(b: &[u8], at: usize) -> (r: u16)
    requires
        at + 2 <= b@.len(),
    ensures
        r == from_be16(b@.skip(at as int)),
{
    256 * (b[at] as u16) + b[at + 1] as u16
}

/// The big-endian number at `at`.
pub fn read_be32(b: &[u8], at: usize) -> (r: u32)
    requires
        at + 4 <= b@.len(),
    ensures
        r == from_be32(b@.skip(at as int)),
{
    16777216 * (b[at] as u32) + 65536 * (b[at + 1] as u32) + 256 * (b[at + 2] as u32) + b[at
        + 3] as u32
}

} // verus!
