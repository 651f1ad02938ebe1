//! What is taken out of a long list of events or actions.
use vstd::prelude::*;

verus! {

/// The parts of the items of a list, one after the other.
pub open spec fn gather<A, B>(items: Seq<A>, part: spec_fn(A) -> Seq<B>) -> Seq<B>
    decreases items.len(),
{
    if items.len() == 0 {
        Seq::empty()
    } else {
        gather(items.drop_last(), part) + part(items.last())
    }
}

/// What is gathered from two lists is gathered from one after the other.
pub proof fn lemma_gather_add<A, B>(first: Seq<A>, second: Seq<A>, part: spec_fn(A) -> Seq<B>)
    ensures
        gather(first + second, part) == gather(first, part) + gather(second, part),
    decreases second.len(),
{
    if second.len() == 0 {
        assert(first + second =~= first);
        assert(gather(first, part) + Seq::<B>::empty() =~= gather(first, part));
    } else {
        lemma_gather_add(first, second.drop_last(), part);
        assert((first + second).drop_last() =~= first + second.drop_last());
        assert(gather(first + second, part) =~= gather(first, part) + gather(second, part));
    }
}

/// What is gathered from a few items.
pub proof fn lemma_gather_few<A, B>(items: Seq<A>, part: spec_fn(A) -> Seq<B>)
    requires
        items.len() <= 5,
    ensures
        items.len() == 0 ==> gather(items, part) == Seq::<B>::empty(),
        items.len() == 1 ==> gather(items, part) == part(items[0]),
        items.len() == 2 ==> gather(items, part) == part(items[0]) + part(items[1]),
        items.len() == 3 ==> gather(items, part) == part(items[0]) + part(items[1]) + part(
            items[2],
        ),
        items.len() == 4 ==> gather(items, part) == part(items[0]) + part(items[1]) + part(
            items[2],
        ) + part(items[3]),
        items.len() == 5 ==> gather(items, part) == part(items[0]) + part(items[1]) + part(
            items[2],
        ) + part(items[3]) + part(items[4]),
    decreases items.len(),
{
    if items.len() > 0 {
        lemma_gather_few(items.drop_last(), part);
        if items.len() == 1 {
            assert(gather(items, part) =~= part(items[0]));
        }
    }
}

} // verus!
