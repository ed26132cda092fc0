//! What holds of the ring across calls, proved over the model that the
//! contracts of the ring store are stated in.

use crate::chord::{ChordError, MAX_ID};
use crate::keyspace::{
    at_or_after, delete_outcome, is_free_at_rank, is_full, joined, lemma_free_below_grows,
    lemma_free_count, lemma_least_unique, lemma_successor, lists_ascending, search_outcome,
    successor, valid_ring,
};
use vstd::prelude::*;

verus! {

/// `states` is a run of successful additions without a deletion between
/// them: the addition of `ids[k]` leads from `states[k]` to `states[k + 1]`.
pub open spec fn run_of_adds(states: Seq<Set<u16>>, ids: Seq<u16>) -> bool {
    &&& states.len() == ids.len() + 1
    &&& forall|k: int| 0 <= k < ids.len() ==> joined(#[trigger] states[k], ids[k], states[k + 1])
}

/// Along a run of additions every identifier handed out so far is a member,
/// and membership grows by one with each addition.
pub proof fn lemma_run_of_adds_accumulates(states: Seq<Set<u16>>, ids: Seq<u16>, upto: int)
    requires
        run_of_adds(states, ids),
        states[0].finite(),
        0 <= upto <= ids.len(),
    ensures
        states[upto].finite(),
        states[upto].len() == states[0].len() + upto,
        forall|i: int| 0 <= i < upto ==> states[upto].contains(#[trigger] ids[i]),
        forall|id: u16| states[0].contains(id) ==> states[upto].contains(id),
    decreases upto,
{
    if upto > 0 {
        lemma_run_of_adds_accumulates(states, ids, upto - 1);
        assert(joined(states[upto - 1], ids[upto - 1], states[upto]));
    }
}

/// Added identifiers are pairwise distinct: in a run of additions no
/// identifier is handed out twice, and none that was a member at the start.
pub proof fn law_added_ids_are_distinct(states: Seq<Set<u16>>, ids: Seq<u16>)
    requires
        run_of_adds(states, ids),
        states[0].finite(),
    ensures
        forall|i: int, j: int| 0 <= i < j < ids.len() ==> ids[i] != ids[j],
        forall|i: int| 0 <= i < ids.len() ==> !states[0].contains(#[trigger] ids[i]),
{
    assert forall|i: int, j: int| 0 <= i < j < ids.len() implies ids[i] != ids[j] by {
        lemma_run_of_adds_accumulates(states, ids, j);
        assert(states[j].contains(ids[i]));
        assert(joined(states[j], ids[j], states[j + 1]));
    }
    assert forall|i: int| 0 <= i < ids.len() implies !states[0].contains(#[trigger] ids[i]) by {
        lemma_run_of_adds_accumulates(states, ids, i);
        assert(joined(states[i], ids[i], states[i + 1]));
    }
}

/// The members listed at any time are pairwise distinct, lie in the
/// keyspace, and are as many as the ring has members.
pub proof fn law_listed_ids_are_distinct(members: Set<u16>, ring: Seq<u16>)
    requires
        valid_ring(members),
        lists_ascending(members, ring),
    ensures
        ring.no_duplicates(),
        forall|i: int| 0 <= i < ring.len() ==> #[trigger] ring[i] < MAX_ID,
        ring.len() == members.len(),
        ring.len() <= MAX_ID,
{
    assert forall|i: int| 0 <= i < ring.len() implies #[trigger] ring[i] < MAX_ID by {
        assert(ring.contains(ring[i]));
    }
    assert(ring.no_duplicates());
    ring.unique_seq_to_set();
    assert(ring.to_set() =~= members);
    lemma_free_count(members);
}

/// After `MAX_ID` successful additions to an empty ring,
/// with no deletion between them, the ring is full, so that the next addition
/// fails.
pub proof fn law_ring_is_full_after_max_id_adds(states: Seq<Set<u16>>, ids: Seq<u16>)
    requires
        run_of_adds(states, ids),
        states[0] == Set::<u16>::empty(),
        ids.len() == MAX_ID,
    ensures
        is_full(states.last()),
        forall|k: int| 0 <= k < ids.len() ==> !is_full(#[trigger] states[k]),
{
    lemma_run_of_adds_accumulates(states, ids, ids.len() as int);
    assert forall|k: int| 0 <= k < ids.len() implies !is_full(#[trigger] states[k]) by {
        lemma_run_of_adds_accumulates(states, ids, k);
    }
}

/// Right after a node was added under `id`, a search for the key
/// `id` resolves to that node.
pub proof fn law_search_finds_added_node(before: Set<u16>, id: u16, after: Set<u16>)
    requires
        joined(before, id, after),
    ensures
        search_outcome(after, id) == Ok::<u16, ChordError>(id),
{
    law_search_finds_member(after, id);
}

/// A search for the identifier of a member resolves to that member.
pub proof fn law_search_finds_member(members: Set<u16>, id: u16)
    requires
        members.contains(id),
        id < MAX_ID,
    ensures
        search_outcome(members, id) == Ok::<u16, ChordError>(id),
{
    let upper = at_or_after(members, id);
    assert(upper.contains(id));
    lemma_least_unique(upper, id);
    assert(successor(members, id) == id);
}

/// On a ring without members every search fails with `NoNodesExist`, also
/// one for a key outside the keyspace.
pub proof fn law_empty_ring_has_no_nodes(key: u16)
    ensures
        search_outcome(Set::<u16>::empty(), key) == Err::<u16, ChordError>(
            ChordError::NoNodesExist,
        ),
{
}

/// On a ring with a member, a search for a key outside the keyspace fails
/// with `OutOfRange`, and a search for a key inside it succeeds with a
/// member.
pub proof fn law_search_validates_the_key(members: Set<u16>, key: u16)
    requires
        !members.is_empty(),
    ensures
        key >= MAX_ID ==> search_outcome(members, key) == Err::<u16, ChordError>(
            ChordError::OutOfRange,
        ),
        key < MAX_ID ==> search_outcome(members, key) is Ok && members.contains(
            search_outcome(members, key)->Ok_0,
        ),
{
    lemma_successor(members, key);
}

/// The free identifier of a rank is determined by the members and the rank:
/// no two identifiers are both the free identifier of one rank.
pub proof fn law_free_id_is_determined(members: Set<u16>, rank: u16, a: u16, b: u16)
    requires
        valid_ring(members),
        is_free_at_rank(members, rank, a),
        is_free_at_rank(members, rank, b),
    ensures
        a == b,
{
    if a < b {
        lemma_free_below_grows(members, a, b);
    } else if b < a {
        lemma_free_below_grows(members, b, a);
    }
}

/// Once the deletion of `id` has succeeded, no listing of
/// the ring holds `id`, and a second deletion of `id` fails with
/// `NodeDoesNotExist`.
pub proof fn law_deleted_id_is_gone(before: Set<u16>, id: u16, ring: Seq<u16>)
    requires
        delete_outcome(before, id) is Ok,
        lists_ascending(before.remove(id), ring),
    ensures
        !ring.contains(id),
        delete_outcome(before.remove(id), id) == Err::<(), ChordError>(
            ChordError::NodeDoesNotExist,
        ),
{
}

/// A listing is determined by the membership at the time it was taken: two
/// ascending listings of the same members are the same sequence.
pub proof fn law_listing_is_determined(members: Set<u16>, a: Seq<u16>, b: Seq<u16>)
    requires
        lists_ascending(members, a),
        lists_ascending(members, b),
    ensures
        a == b,
    decreases a.len(),
{
    if a.len() == 0 {
        if b.len() > 0 {
            assert(b.contains(b[0]));
            assert(a.contains(b[0]));
        }
        assert(a =~= b);
    } else {
        assert(a.contains(a.last()));
        assert(b.contains(a.last()));
        assert(b.len() > 0);
        assert(b.contains(b.last()));
        assert(a.contains(b.last()));
        assert(a.last() == b.last()) by {
            let in_a = choose|i: int| 0 <= i < a.len() && a[i] == b.last();
            let in_b = choose|i: int| 0 <= i < b.len() && b[i] == a.last();
            assert(a[in_a] <= a.last() && b[in_b] <= b.last());
        }
        let top = a.last();
        let rest = members.remove(top);
        assert forall|id: u16| a.drop_last().contains(id) <==> rest.contains(id) by {
            if a.drop_last().contains(id) {
                let i = choose|i: int| 0 <= i < a.drop_last().len() && a.drop_last()[i] == id;
                assert(a[i] == id);
                assert(a.contains(id));
            }
            if rest.contains(id) {
                assert(a.contains(id));
                let i = choose|i: int| 0 <= i < a.len() && a[i] == id;
                assert(a.drop_last()[i] == id);
            }
        }
        assert forall|id: u16| b.drop_last().contains(id) <==> rest.contains(id) by {
            if b.drop_last().contains(id) {
                let i = choose|i: int| 0 <= i < b.drop_last().len() && b.drop_last()[i] == id;
                assert(b[i] == id);
                assert(b.contains(id));
            }
            if rest.contains(id) {
                assert(b.contains(id));
                let i = choose|i: int| 0 <= i < b.len() && b[i] == id;
                assert(b.drop_last()[i] == id);
            }
        }
        law_listing_is_determined(rest, a.drop_last(), b.drop_last());
        assert(a =~= a.drop_last().push(top));
        assert(b =~= b.drop_last().push(top));
    }
}

} // verus!
