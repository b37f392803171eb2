//! IPv6 addresses whose zeros are left out.
use vstd::prelude::*;

use crate::acl_key::{address_part, expanded, fill, group_bytes, groups, parsed_acl_addr};
use crate::laws::lemma_join_without;
use crate::text::{
    find, has, hex, join, join_then_split, lemma_digits_only, lemma_find, number_roundtrip, split,
};

verus! {

/// Groups in base 16.
pub open spec fn hex_parts(g: Seq<u16>) -> Seq<Seq<char>> {
    Seq::new(g.len(), |i: int| hex(g[i] as int))
}

/// Parts with nothing in them.
pub open spec fn blank_parts(n: nat) -> Seq<Seq<char>> {
    Seq::new(n, |i: int| Seq::<char>::empty())
}

/// The text of an address with zeros left out between two runs of groups, a colon
/// between any two parts.
pub open spec fn shortened(head: Seq<u16>, gap: nat, tail: Seq<u16>) -> Seq<char> {
    join(hex_parts(head) + blank_parts(gap) + hex_parts(tail), seq![':'])
}

/// Zero groups.
pub open spec fn zero_groups(n: int) -> Seq<u16> {
    Seq::new(n as nat, |i: int| 0u16)
}

/// Two bytes for each group, the high one first.
pub open spec fn holds_groups(addr: Seq<u8>, g: Seq<u16>) -> bool {
    &&& addr.len() == 2 * g.len()
    &&& forall|i: int| 0 <= i < g.len() ==> 256 * addr[2 * i] + addr[2 * i + 1] == #[trigger] g[i]
}

spec fn told(g: Seq<u16>) -> Seq<Option<u16>> {
    Seq::new(g.len(), |i: int| Some(g[i]))
}

proof fn lemma_hex_part(v: u16)
    ensures
        hex(v as int).len() > 0,
        forall|j: int|
            0 <= j < hex(v as int).len() ==> #[trigger] hex(v as int)[j] != ':' && hex(v as int)[j]
                != '.' && hex(v as int)[j] != '/',
{
    lemma_digits_only(v as int, 16, ':');
    lemma_digits_only(v as int, 16, '.');
    lemma_digits_only(v as int, 16, '/');
}

proof fn lemma_head_groups(head: Seq<u16>, s: Seq<char>)
    ensures
        groups(hex_parts(head), s) == Ok::<Seq<Option<u16>>, Seq<char>>(told(head)),
        !told(head).contains(None),
    decreases head.len(),
{
    if head.len() == 0 {
        assert(told(head) =~= Seq::empty());
    } else {
        let rest = head.drop_last();
        let v = head.last();
        lemma_head_groups(rest, s);
        lemma_hex_part(v);
        number_roundtrip(v as int, 16, 65535);
        assert(hex_parts(head).drop_last() =~= hex_parts(rest));
        assert(told(head) =~= told(rest).push(Some(v)));
    }
}

proof fn lemma_gap_groups(head: Seq<u16>, gap: nat, s: Seq<char>)
    requires
        gap >= 1,
    ensures
        groups(hex_parts(head) + blank_parts(gap), s) == Ok::<Seq<Option<u16>>, Seq<char>>(
            told(head).push(None),
        ),
    decreases gap,
{
    let all = hex_parts(head) + blank_parts(gap);
    let before = hex_parts(head) + blank_parts((gap - 1) as nat);
    assert(all.drop_last() =~= before);
    assert(all.last() =~= Seq::<char>::empty());
    lemma_head_groups(head, s);
    if gap == 1 {
        assert(before =~= hex_parts(head));
        if told(head).len() > 0 {
            assert(told(head).last() is Some);
        }
    } else {
        lemma_gap_groups(head, (gap - 1) as nat, s);
        assert(told(head).push(None).last() is None);
    }
}

proof fn lemma_all_groups(head: Seq<u16>, gap: nat, tail: Seq<u16>, s: Seq<char>)
    requires
        gap >= 1,
    ensures
        groups(hex_parts(head) + blank_parts(gap) + hex_parts(tail), s) == Ok::<
            Seq<Option<u16>>,
            Seq<char>,
        >(told(head).push(None) + told(tail)),
    decreases tail.len(),
{
    let all = hex_parts(head) + blank_parts(gap) + hex_parts(tail);
    if tail.len() == 0 {
        assert(all =~= hex_parts(head) + blank_parts(gap));
        lemma_gap_groups(head, gap, s);
        assert(told(head).push(None) + told(tail) =~= told(head).push(None));
    } else {
        let rest = tail.drop_last();
        let v = tail.last();
        assert(all.drop_last() =~= hex_parts(head) + blank_parts(gap) + hex_parts(rest));
        assert(all.last() == hex(v as int));
        lemma_all_groups(head, gap, rest, s);
        lemma_hex_part(v);
        number_roundtrip(v as int, 16, 65535);
        assert(told(head).push(None) + told(tail) =~= (told(head).push(None) + told(rest)).push(
            Some(v),
        ));
    }
}

proof fn lemma_head_expanded(head: Seq<u16>, total: int)
    ensures
        expanded(told(head), total) == head,
    decreases head.len(),
{
    if head.len() == 0 {
        assert(expanded(told(head), total) =~= head);
    } else {
        let rest = head.drop_last();
        lemma_head_expanded(rest, total);
        assert(told(head).drop_last() =~= told(rest));
        assert(rest.push(head.last()) =~= head);
    }
}

proof fn lemma_all_expanded(head: Seq<u16>, tail: Seq<u16>, total: int)
    ensures
        expanded(told(head).push(None) + told(tail), total) == head + zero_groups(fill(total))
            + tail,
    decreases tail.len(),
{
    let all = told(head).push(None) + told(tail);
    if tail.len() == 0 {
        assert(all =~= told(head).push(None));
        assert(all.drop_last() =~= told(head));
        lemma_head_expanded(head, total);
        assert(head + zero_groups(fill(total)) + tail =~= head + zero_groups(fill(total)));
    } else {
        let rest = tail.drop_last();
        assert(all.drop_last() =~= told(head).push(None) + told(rest));
        assert(all.last() == Some(tail.last()));
        lemma_all_expanded(head, rest, total);
        assert(head + zero_groups(fill(total)) + tail =~= (head + zero_groups(fill(total))
            + rest).push(tail.last()));
    }
}

proof fn lemma_parts(head: Seq<u16>, gap: nat, tail: Seq<u16>)
    requires
        head.len() + gap + tail.len() >= 2,
    ensures
        ({
            let s = shortened(head, gap, tail);
            &&& split(s, ':') == hex_parts(head) + blank_parts(gap) + hex_parts(tail)
            &&& find(s, '.') is None
            &&& find(s, '/') is None
            &&& has(s, ':')
        }),
{
    let p = hex_parts(head) + blank_parts(gap) + hex_parts(tail);
    let s = join(p, seq![':']);
    assert forall|i: int, j: int| 0 <= i < p.len() && 0 <= j < p[i].len() implies p[i][j] != ':'
        && p[i][j] != '.' && p[i][j] != '/' by {
        let n = head.len() as int;
        if i < n {
            lemma_hex_part(head[i]);
            assert(p[i] == hex(head[i] as int));
        } else if i >= n + gap {
            lemma_hex_part(tail[i - n - gap]);
            assert(p[i] == hex(tail[i - n - gap] as int));
        }
    }
    join_then_split(p, ':');
    lemma_join_without(p, ':', '.');
    lemma_join_without(p, ':', '/');
    lemma_find(s, '.');
    lemma_find(s, '/');
    lemma_find(s, ':');
    let before = join(p.drop_last(), seq![':']);
    assert(s == before + seq![':'] + p.last());
    assert(s[before.len() as int] == ':');
}

/// An IPv6 address may leave out one run of zero groups: what stands before it are
/// the first groups, what stands behind it the last, and zeros fill it up to
/// eight. With more than eight groups it is refused.
pub proof fn left_out_zeros_are_filled_in(head: Seq<u16>, gap: nat, tail: Seq<u16>)
    requires
        gap >= 1,
        head.len() + gap + tail.len() >= 2,
    ensures
        head.len() + tail.len() <= 8 ==> (parsed_acl_addr(shortened(head, gap, tail)) matches Ok(a)
            && a.v6 && a.prefix is None && holds_groups(
            a.addr,
            head + zero_groups(8 - head.len() - tail.len()) + tail,
        )),
        head.len() + tail.len() > 8 ==> parsed_acl_addr(shortened(head, gap, tail)) is Err,
{
    let s = shortened(head, gap, tail);
    lemma_parts(head, gap, tail);
    assert(address_part(s) == s);
    lemma_all_groups(head, gap, tail, s);
    let g = told(head).push(None) + told(tail);
    let total = g.len() as int;
    assert(total == head.len() + tail.len() + 1);
    lemma_all_expanded(head, tail, total);
    let e = expanded(g, total);
    if head.len() + tail.len() <= 8 {
        assert(e.len() == 8);
        let b = group_bytes(e);
        assert forall|i: int| 0 <= i < 8 implies 256 * b[2 * i] + b[2 * i + 1]
            == #[trigger] e[i] by {
            assert(b[2 * i] == (e[i] / 256) as u8);
            assert((2 * i + 1) / 2 == i);
            assert(b[2 * i + 1] == (e[i] % 256) as u8);
        }
    }
}

} // verus!
