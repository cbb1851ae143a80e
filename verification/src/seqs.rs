use vstd::prelude::*;

verus! {

/// Filtering a sequence with one more element at its end.
pub proof fn lemma_filter_push<A>(s: Seq<A>, pred: spec_fn(A) -> bool, e: A)
    ensures
        pred(e) ==> s.push(e).filter(pred) == s.filter(pred).push(e),
        !pred(e) ==> s.push(e).filter(pred) == s.filter(pred),
{
    reveal(Seq::filter);
    assert(s.push(e).drop_last() == s);
}

/// The concatenation of the sequences in `ss`.
pub open spec fn concat<A>(ss: Seq<Seq<A>>) -> Seq<A>
    decreases ss.len(),
{
    if ss.len() == 0 {
        Seq::empty()
    } else {
        concat(ss.drop_last()) + ss.last()
    }
}

/// Concatenation distributes over `+`.
pub proof fn lemma_concat_add<A>(a: Seq<Seq<A>>, b: Seq<Seq<A>>)
    ensures
        concat(a + b) == concat(a) + concat(b),
    decreases b.len(),
{
    if b.len() == 0 {
        assert(a + b == a);
        assert(concat(a) + Seq::<A>::empty() == concat(a));
    } else {
        lemma_concat_add(a, b.drop_last());
        assert((a + b).drop_last() == a + b.drop_last());
        assert((a + b).last() == b.last());
        assert(concat(a) + concat(b.drop_last()) + b.last() == concat(a) + (concat(b.drop_last())
            + b.last()));
    }
}

/// Filtering distributes over `+`.
pub proof fn lemma_filter_add<A>(a: Seq<A>, b: Seq<A>, pred: spec_fn(A) -> bool)
    ensures
        (a + b).filter(pred) == a.filter(pred) + b.filter(pred),
    decreases b.len(),
{
    if b.len() == 0 {
        assert(a + b == a);
        assert(a.filter(pred) + Seq::<A>::empty() == a.filter(pred));
        reveal(Seq::filter);
    } else {
        lemma_filter_add(a, b.drop_last(), pred);
        assert(a + b == (a + b.drop_last()).push(b.last()));
        assert(b == b.drop_last().push(b.last()));
        lemma_filter_push(a + b.drop_last(), pred, b.last());
        lemma_filter_push(b.drop_last(), pred, b.last());
    }
}

} // verus!
