//! Putting things in descending order, those of equal rank as they came.

use vstd::prelude::*;

verus! {

/// Where something of this rank goes among others in descending order: before
/// the first one of a lower rank.
pub open spec fn slot(ranks: Seq<int>, rank: int) -> int
    decreases ranks.len(),
{
    if ranks.len() == 0 || ranks[0] < rank {
        0
    } else {
        1 + slot(ranks.drop_first(), rank)
    }
}

pub open spec fn ranks_of<A>(items: Seq<A>, rank: spec_fn(A) -> int) -> Seq<int> {
    Seq::new(items.len(), |i: int| rank(items[i]))
}

/// The items in descending order of rank, those of equal rank in the order in
/// which they came.
pub open spec fn descending<A>(items: Seq<A>, rank: spec_fn(A) -> int) -> Seq<A>
    decreases items.len(),
{
    if items.len() == 0 {
        items
    } else {
        let before = descending(items.drop_last(), rank);
        before.insert(slot(ranks_of(before, rank), rank(items.last())), items.last())
    }
}

proof fn lemma_slot_skips(ranks: Seq<int>, rank: int, from: int)
    requires
        0 <= from < ranks.len(),
        ranks[from] >= rank,
    ensures
        slot(ranks.skip(from), rank) == 1 + slot(ranks.skip(from + 1), rank),
{
    assert(ranks.skip(from)[0] == ranks[from]);
    assert(ranks.skip(from).drop_first() =~= ranks.skip(from + 1));
}

/// Finds where something of this rank goes.
pub(crate) fn find_slot(ranks: &Vec<i64>, rank: i64) -> (r: usize)
    ensures
        r <= ranks@.len(),
        r == slot(Seq::new(ranks@.len(), |i: int| ranks@[i] as int), rank as int),
{
    let ghost all = Seq::new(ranks@.len(), |i: int| ranks@[i] as int);
    let mut i: usize = 0;
    assert(all.skip(0) =~= all);
    while i < ranks.len() && ranks[i] >= rank
        invariant
            i <= ranks@.len(),
            all == Seq::new(ranks@.len(), |i: int| ranks@[i] as int),
            slot(all, rank as int) == i + slot(all.skip(i as int), rank as int),
        decreases ranks@.len() - i,
    {
        proof {
            lemma_slot_skips(all, rank as int, i as int);
        }
        i = i + 1;
    }
    proof {
        if i < ranks@.len() {
            assert(all.skip(i as int)[0] < rank);
        }
    }
    i
}

// ---- what the order is -------------------------------------------------

pub open spec fn is_descending<A>(items: Seq<A>, rank: spec_fn(A) -> int) -> bool {
    forall|i: int, j: int| 0 <= i < j < items.len() ==> rank(#[trigger] items[i]) >= rank(
        #[trigger] items[j],
    )
}

proof fn lemma_slot_separates(ranks: Seq<int>, rank: int)
    requires
        forall|i: int, j: int| 0 <= i < j < ranks.len() ==> ranks[i] >= ranks[j],
    ensures
        0 <= slot(ranks, rank) <= ranks.len(),
        forall|i: int| 0 <= i < slot(ranks, rank) ==> ranks[i] >= rank,
        forall|i: int| slot(ranks, rank) <= i < ranks.len() ==> ranks[i] < rank,
    decreases ranks.len(),
{
    if ranks.len() > 0 && ranks[0] >= rank {
        let rest = ranks.drop_first();
        assert forall|i: int, j: int| 0 <= i < j < rest.len() implies rest[i] >= rest[j] by {
            assert(ranks[i + 1] >= ranks[j + 1]);
        }
        lemma_slot_separates(rest, rank);
        assert forall|i: int| 0 <= i < slot(ranks, rank) implies ranks[i] >= rank by {
            if i > 0 {
                assert(rest[i - 1] >= rank);
            }
        }
        assert forall|i: int| slot(ranks, rank) <= i < ranks.len() implies ranks[i] < rank by {
            assert(rest[i - 1] < rank);
        }
    }
}

/// Items put in descending order are in descending order, and they are the
/// same items.
pub proof fn lemma_descending<A>(items: Seq<A>, rank: spec_fn(A) -> int)
    ensures
        is_descending(descending(items, rank), rank),
        descending(items, rank).len() == items.len(),
        descending(items, rank).to_multiset() == items.to_multiset(),
    decreases items.len(),
{
    broadcast use vstd::seq_lib::group_to_multiset_ensures;

    if items.len() > 0 {
        let last = items.last();
        lemma_descending(items.drop_last(), rank);
        let before = descending(items.drop_last(), rank);
        let ranks = ranks_of(before, rank);
        let at = slot(ranks, rank(last));
        let after = descending(items, rank);
        assert forall|i: int, j: int| 0 <= i < j < ranks.len() implies ranks[i] >= ranks[j] by {
            assert(rank(before[i]) >= rank(before[j]));
        }
        lemma_slot_separates(ranks, rank(last));
        assert forall|i: int, j: int| 0 <= i < j < after.len() implies rank(#[trigger] after[i])
            >= rank(#[trigger] after[j]) by {
            if i < at {
                assert(after[i] == before[i]);
                assert(ranks[i] >= rank(last));
            } else if i > at {
                assert(after[i] == before[i - 1]);
            }
            if j < at {
                assert(after[j] == before[j]);
            } else if j > at {
                assert(after[j] == before[j - 1]);
                assert(ranks[j - 1] < rank(last));
            }
        }
        assert(items =~= items.drop_last().push(last));
        assert(after =~= before.take(at) + seq![last] + before.skip(at));
        assert(before =~= before.take(at) + before.skip(at));
        vstd::seq_lib::lemma_multiset_commutative(before.take(at), seq![last] + before.skip(at));
        vstd::seq_lib::lemma_multiset_commutative(before.take(at) + seq![last], before.skip(at));
        vstd::seq_lib::lemma_multiset_commutative(before.take(at), seq![last]);
        vstd::seq_lib::lemma_multiset_commutative(before.take(at), before.skip(at));
        assert(seq![last] =~= Seq::<A>::empty().push(last));
        assert(after.to_multiset() =~= before.to_multiset().insert(last));
    }
}

/// Items of equal rank keep their order: of each rank, the items are the same
/// ones in the same order before and after.
pub proof fn lemma_descending_is_stable<A>(items: Seq<A>, rank: spec_fn(A) -> int, of: int)
    ensures
        descending(items, rank).filter(|a: A| rank(a) == of) == items.filter(
            |a: A| rank(a) == of,
        ),
    decreases items.len(),
{
    let pick = |a: A| rank(a) == of;
    reveal(Seq::filter);
    if items.len() > 0 {
        let last = items.last();
        lemma_descending(items.drop_last(), rank);
        lemma_descending_is_stable(items.drop_last(), rank, of);
        let before = descending(items.drop_last(), rank);
        let ranks = ranks_of(before, rank);
        let at = slot(ranks, rank(last));
        let after = descending(items, rank);
        assert forall|i: int, j: int| 0 <= i < j < ranks.len() implies ranks[i] >= ranks[j] by {
            assert(rank(before[i]) >= rank(before[j]));
        }
        lemma_slot_separates(ranks, rank(last));
        let (head, tail) = (before.take(at), before.skip(at));
        assert(before =~= head + tail);
        assert(after =~= head + seq![last] + tail);
        Seq::filter_distributes_over_add(head, tail, pick);
        Seq::filter_distributes_over_add(head + seq![last], tail, pick);
        Seq::filter_distributes_over_add(head, seq![last], pick);
        let one = seq![last];
        assert(one.drop_last() =~= Seq::<A>::empty());
        assert(one.drop_last().filter(pick) =~= Seq::<A>::empty());
        if pick(last) {
            assert forall|i: int| 0 <= i < tail.len() implies !pick(#[trigger] tail[i]) by {
                assert(ranks[at + i] < rank(last));
            }
            tail.lemma_all_neg_filter_empty(pick);
            assert(tail.filter(pick) =~= Seq::<A>::empty());
            assert(one.filter(pick) =~= one);
            assert(before.filter(pick) =~= head.filter(pick));
            assert(after.filter(pick) =~= before.filter(pick).push(last));
        } else {
            assert(one.filter(pick) =~= Seq::<A>::empty());
            assert(after.filter(pick) =~= before.filter(pick));
        }
    }
}

} // verus!
