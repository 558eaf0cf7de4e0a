//! Setting examples aside for testing: a random split of the indices of a
//! table into those to test on and those to train on.

use rand::seq::SliceRandom;
use vstd::prelude::*;

verus! {

/// The indices of a table of `count` rows, in order.
pub open spec fn indices(count: nat) -> Seq<usize> {
    Seq::new(count, |i: int| i as usize)
}

/// `test` and `train` split the indices of a table of `count` rows: every
/// index below `count` is in one of the two, once, and nothing else is in
/// either.
pub open spec fn is_partition(count: nat, test: Seq<usize>, train: Seq<usize>) -> bool {
    forall|i: usize|
        #[trigger] test.to_multiset().count(i) + train.to_multiset().count(i) == (if i < count {
            1nat
        } else {
            0nat
        })
}

/// Rearranges `items` at random. This is `SliceRandom::shuffle` of `rand`,
/// run with the generator of the current thread: it swaps items of the slice
/// with one another and does nothing else to it, so the vector holds
/// afterwards what it held before, each item as often as before. In which
/// order is left to chance. The generator gives up, with a panic, only where
/// the system has no randomness to seed it with.
#[verifier::external_body]
fn shuffle(items: &mut Vec<usize>)
    ensures
        final(items)@.to_multiset() == old(items)@.to_multiset(),
{
    items.shuffle(&mut rand::thread_rng());
}

/// Each index below `count` is once among the indices of a table of `count`
/// rows, and nothing else is.
pub proof fn lemma_indices_once(count: nat, i: usize)
    requires
        count <= usize::MAX,
    ensures
        indices(count).to_multiset().count(i) == (if i < count {
            1nat
        } else {
            0nat
        }),
    decreases count,
{
    if count == 0 {
        assert(indices(count) =~= Seq::<usize>::empty());
        assert(indices(count).to_multiset().len() == 0) by {
            vstd::seq_lib::to_multiset_len(indices(count));
        }
    } else {
        let shorter = indices((count - 1) as nat);
        let last = (count - 1) as usize;
        assert(indices(count) =~= shorter.push(last));
        vstd::seq_lib::to_multiset_build(shorter, last);
        lemma_indices_once((count - 1) as nat, i);
    }
}

/// A rearrangement of the indices of a table, cut in two, splits them.
pub proof fn lemma_cut_is_partition(count: nat, all: Seq<usize>, at: int)
    requires
        count <= usize::MAX,
        0 <= at <= all.len(),
        all.to_multiset() == indices(count).to_multiset(),
    ensures
        is_partition(count, all.subrange(0, at), all.subrange(at, all.len() as int)),
{
    let test = all.subrange(0, at);
    let train = all.subrange(at, all.len() as int);
    assert(test + train =~= all);
    vstd::seq_lib::lemma_multiset_commutative(test, train);
    assert forall|i: usize|
        #[trigger] test.to_multiset().count(i) + train.to_multiset().count(i) == (if i < count {
            1nat
        } else {
            0nat
        }) by {
        lemma_indices_once(count, i);
        assert(all.to_multiset().count(i) == test.to_multiset().add(train.to_multiset()).count(i));
    }
}

/// Splits the indices of a table of `count` rows at random: `test_count` of
/// them to test on, the others to train on.
pub fn split_indices(count: usize, test_count: usize) -> (parts: (Vec<usize>, Vec<usize>))
    requires
        test_count <= count,
    ensures
        parts.0@.len() == test_count,
        parts.1@.len() == count - test_count,
        is_partition(count as nat, parts.0@, parts.1@),
{
    let mut all: Vec<usize> = Vec::new();
    let mut i: usize = 0;
    while i < count
        invariant
            i <= count,
            all@ == indices(i as nat),
        decreases count - i,
    {
        all.push(i);
        assert(all@ =~= indices((i + 1) as nat));
        i = i + 1;
    }
    shuffle(&mut all);
    proof {
        vstd::seq_lib::to_multiset_len(all@);
        vstd::seq_lib::to_multiset_len(indices(count as nat));
        lemma_cut_is_partition(count as nat, all@, test_count as int);
    }
    let train = all.split_off(test_count);
    (all, train)
}

} // verus!
