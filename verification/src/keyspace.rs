//! The mathematical model of the ring: a set of identifiers drawn from
//! `[0, MAX_ID)`, and what routing and the choice of a free identifier mean on
//! such a set.

use crate::chord::{ChordError, MAX_ID};
use vstd::prelude::*;

verus! {

/// A set of identifiers that can be the membership of a ring: finitely many
/// identifiers, each inside the keyspace.
pub open spec fn valid_ring(members: Set<u16>) -> bool {
    &&& members.finite()
    &&& forall|id: u16| members.contains(id) ==> id < MAX_ID
}

/// `id` belongs to `ids` and no identifier of `ids` is smaller.
pub open spec fn is_least(ids: Set<u16>, id: u16) -> bool {
    &&& ids.contains(id)
    &&& forall|other: u16| ids.contains(other) ==> id <= other
}

/// The smallest identifier of `ids`; arbitrary where `ids` is empty.
pub open spec fn least(ids: Set<u16>) -> u16 {
    choose|id: u16| is_least(ids, id)
}

/// The members whose identifier is `key` or larger.
pub open spec fn at_or_after(members: Set<u16>, key: u16) -> Set<u16> {
    members.filter(|id: u16| id >= key)
}

/// The member responsible for `key`: the smallest member that is at least
/// `key`, or, where every member is below `key`, the smallest member of all.
pub open spec fn successor(members: Set<u16>, key: u16) -> u16 {
    if at_or_after(members, key).is_empty() {
        least(members)
    } else {
        least(at_or_after(members, key))
    }
}

/// What a search for `key` gives on a ring with these members: the
/// identifier of the responsible member, or the reason why there is none. An
/// empty ring is reported before a key outside the keyspace is.
pub open spec fn search_outcome(members: Set<u16>, key: u16) -> Result<u16, ChordError> {
    if members.is_empty() {
        Err(ChordError::NoNodesExist)
    } else if key >= MAX_ID {
        Err(ChordError::OutOfRange)
    } else {
        Ok(successor(members, key))
    }
}

/// What the deletion of `id` reports on a ring with these members.
pub open spec fn delete_outcome(members: Set<u16>, id: u16) -> Result<(), ChordError> {
    if members.contains(id) {
        Ok(())
    } else {
        Err(ChordError::NodeDoesNotExist)
    }
}

/// `ring` lists exactly the identifiers in `members`, each once, in ascending
/// order.
pub open spec fn lists_ascending(members: Set<u16>, ring: Seq<u16>) -> bool {
    &&& forall|i: int, j: int| 0 <= i < j < ring.len() ==> ring[i] < ring[j]
    &&& forall|id: u16| ring.contains(id) <==> members.contains(id)
}

/// The identifiers below `bound` that no member has.
pub open spec fn free_below(members: Set<u16>, bound: u16) -> Set<u16> {
    Set::new(|id: u16| id < bound && !members.contains(id))
}

/// The members below `bound`.
pub open spec fn members_below(members: Set<u16>, bound: u16) -> Set<u16> {
    members.filter(|id: u16| id < bound)
}

/// How many identifiers of the keyspace no member has.
pub open spec fn free_count(members: Set<u16>) -> nat {
    free_below(members, MAX_ID).len()
}

/// `id` is the free identifier of rank `rank`: it lies in the keyspace, no
/// member has it, and exactly `rank` free identifiers are smaller.
pub open spec fn is_free_at_rank(members: Set<u16>, rank: u16, id: u16) -> bool {
    &&& id < MAX_ID
    &&& !members.contains(id)
    &&& free_below(members, id).len() == rank
}

/// `after` is `before` with the new member `id`, whose identifier was free.
pub open spec fn joined(before: Set<u16>, id: u16, after: Set<u16>) -> bool {
    &&& id < MAX_ID
    &&& !before.contains(id)
    &&& after == before.insert(id)
}

/// Every identifier of the keyspace is taken.
pub open spec fn is_full(members: Set<u16>) -> bool {
    members.len() >= MAX_ID
}

/// Every set that holds an identifier has a smallest one.
pub proof fn lemma_least_exists(ids: Set<u16>, member: u16)
    requires
        ids.contains(member),
    ensures
        is_least(ids, least(ids)),
    decreases member,
{
    if !is_least(ids, member) {
        let smaller = choose|other: u16| ids.contains(other) && other < member;
        lemma_least_exists(ids, smaller);
    }
}

/// The smallest identifier of a set is the only one that `is_least` accepts.
pub proof fn lemma_least_unique(ids: Set<u16>, id: u16)
    requires
        is_least(ids, id),
    ensures
        least(ids) == id,
{
    lemma_least_exists(ids, id);
}

/// On a ring with a member, `successor` names a member, and the one that the
/// routing rule asks for.
pub proof fn lemma_successor(members: Set<u16>, key: u16)
    requires
        !members.is_empty(),
    ensures
        members.contains(successor(members, key)),
        at_or_after(members, key).is_empty() ==> is_least(members, successor(members, key)),
        !at_or_after(members, key).is_empty() ==> is_least(
            at_or_after(members, key),
            successor(members, key),
        ),
{
    let upper = at_or_after(members, key);
    if upper.is_empty() {
        let member = choose|id: u16| members.contains(id);
        lemma_least_exists(members, member);
    } else {
        let member = choose|id: u16| upper.contains(id);
        lemma_least_exists(upper, member);
    }
}

/// Where an ascending listing of the members holds an identifier at or after
/// `key`, the first such is the member responsible for `key`.
pub proof fn lemma_successor_is_first_at_or_after(
    members: Set<u16>,
    ring: Seq<u16>,
    key: u16,
    at: int,
)
    requires
        lists_ascending(members, ring),
        0 <= at < ring.len(),
        ring[at] >= key,
        forall|i: int| 0 <= i < at ==> ring[i] < key,
    ensures
        successor(members, key) == ring[at],
{
    let upper = at_or_after(members, key);
    assert(ring.contains(ring[at]));
    assert(upper.contains(ring[at]));
    assert forall|other: u16| upper.contains(other) implies ring[at] <= other by {
        assert(ring.contains(other));
        let i = choose|i: int| 0 <= i < ring.len() && ring[i] == other;
        assert(i >= at);
    }
    lemma_least_unique(upper, ring[at]);
}

/// Where every identifier in an ascending listing of the members is below
/// `key`, the first of the listing is the member responsible for `key`.
pub proof fn lemma_successor_wraps_to_first(members: Set<u16>, ring: Seq<u16>, key: u16)
    requires
        lists_ascending(members, ring),
        ring.len() > 0,
        forall|i: int| 0 <= i < ring.len() ==> ring[i] < key,
    ensures
        successor(members, key) == ring[0],
{
    let upper = at_or_after(members, key);
    assert forall|other: u16| !upper.contains(other) by {
        if members.contains(other) {
            assert(ring.contains(other));
        }
    }
    assert(upper.is_empty());
    assert(ring.contains(ring[0]));
    assert forall|other: u16| members.contains(other) implies ring[0] <= other by {
        assert(ring.contains(other));
    }
    lemma_least_unique(members, ring[0]);
}

/// Below any bound, the free identifiers and the members are finitely many
/// and together are all the identifiers below it.
pub proof fn lemma_split_below(members: Set<u16>, bound: u16)
    requires
        members.finite(),
    ensures
        free_below(members, bound).finite(),
        members_below(members, bound).finite(),
        free_below(members, bound).len() + members_below(members, bound).len() == bound,
    decreases bound,
{
    members.lemma_len_filter(|id: u16| id < bound);
    if bound == 0 {
        assert(free_below(members, bound) =~= Set::empty());
        assert(members_below(members, bound) =~= Set::empty());
    } else {
        let below = (bound - 1) as u16;
        lemma_split_below(members, below);
        if members.contains(below) {
            assert(free_below(members, bound) =~= free_below(members, below));
            assert(members_below(members, bound) =~= members_below(members, below).insert(below));
        } else {
            assert(free_below(members, bound) =~= free_below(members, below).insert(below));
            assert(members_below(members, bound) =~= members_below(members, below));
        }
    }
}

/// One step of counting free identifiers upward: the count below `bound + 1`
/// is the count below `bound`, and one more where `bound` itself is free.
pub proof fn lemma_free_below_step(members: Set<u16>, bound: u16)
    requires
        members.finite(),
        bound < u16::MAX,
    ensures
        free_below(members, (bound + 1) as u16).len() == free_below(members, bound).len() + (
        if members.contains(bound) {
            0int
        } else {
            1int
        }),
{
    let next = (bound + 1) as u16;
    lemma_split_below(members, bound);
    if members.contains(bound) {
        assert(free_below(members, next) =~= free_below(members, bound));
    } else {
        assert(free_below(members, next) =~= free_below(members, bound).insert(bound));
    }
}

/// On a valid ring the free identifiers and the members together fill the
/// keyspace.
pub proof fn lemma_free_count(members: Set<u16>)
    requires
        valid_ring(members),
    ensures
        free_count(members) + members.len() == MAX_ID,
        members.len() <= MAX_ID,
{
    lemma_split_below(members, MAX_ID);
    assert(members_below(members, MAX_ID) =~= members);
}

/// The count of smaller free identifiers grows with the identifier, and
/// strictly so past a free one.
pub proof fn lemma_free_below_grows(members: Set<u16>, low: u16, high: u16)
    requires
        members.finite(),
        low <= high,
    ensures
        free_below(members, low).len() <= free_below(members, high).len(),
        low < high && !members.contains(low) ==> free_below(members, low).len()
            < free_below(members, high).len(),
{
    lemma_split_below(members, low);
    lemma_split_below(members, high);
    if low < high && !members.contains(low) {
        let with_low = free_below(members, low).insert(low);
        assert(with_low.subset_of(free_below(members, high)));
        vstd::set_lib::lemma_len_subset(with_low, free_below(members, high));
    } else {
        assert(free_below(members, low).subset_of(free_below(members, high)));
        vstd::set_lib::lemma_len_subset(free_below(members, low), free_below(members, high));
    }
}

} // verus!
