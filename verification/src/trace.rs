//! Growing records of what was done.
use vstd::prelude::*;

verus! {

/// Everything in `before` is still in `after`.
pub open spec fn extends<A>(before: Seq<A>, after: Seq<A>) -> bool {
    before.len() <= after.len() && after.take(before.len() as int) == before
}

/// What came since `before`.
pub open spec fn since<A>(before: Seq<A>, after: Seq<A>) -> Seq<A> {
    after.skip(before.len() as int)
}

/// What came in two stretches is what came in the one and then in the other.
pub proof fn lemma_since<A>(a: Seq<A>, b: Seq<A>, c: Seq<A>)
    requires
        extends(a, b),
        extends(b, c),
    ensures
        extends(a, c),
        since(a, c) == since(a, b) + since(b, c),
{
    assert(c.take(a.len() as int) =~= b.take(a.len() as int));
    assert forall|i: int| a.len() <= i < b.len() implies c[i] == b[i] by {
        assert(c.take(b.len() as int)[i] == b[i]);
    }
    assert(since(a, c) =~= since(a, b) + since(b, c));
}

/// One more.
pub proof fn lemma_push<A>(a: Seq<A>, x: A)
    ensures
        extends(a, a.push(x)),
        since(a, a.push(x)) == seq![x],
{
    assert(a.push(x).take(a.len() as int) =~= a);
    assert(since(a, a.push(x)) =~= seq![x]);
}

/// None.
pub proof fn lemma_same<A>(a: Seq<A>)
    ensures
        extends(a, a),
        since(a, a) == Seq::<A>::empty(),
{
    assert(a.take(a.len() as int) =~= a);
    assert(since(a, a) =~= Seq::<A>::empty());
}

} // verus!
