//! The ring store: the live nodes of a Chord-style ring, kept in ascending
//! order of their identifiers, with membership changes and key routing.

use crate::keyspace::{
    delete_outcome, free_below, free_count, is_free_at_rank, is_full, joined, lemma_free_below_grows,
    lemma_free_below_step, lemma_free_count, lemma_successor_is_first_at_or_after,
    lemma_successor_wraps_to_first, lists_ascending, search_outcome, valid_ring,
};
use rand::Rng;
use std::collections::BTreeMap;
use vstd::prelude::*;
use vstd::std_specs::cmp::OrdSpec;
use vstd::std_specs::iter::IteratorSpec;

verus! {

/// Size of the keyspace: identifiers and keys are the integers of `[0, MAX_ID)`.
pub const MAX_ID: u16 = 64;

/// A member of the ring. Its identifier is all that it is.
#[derive(Debug, Clone, PartialEq, Eq)]
pub struct Node {
    pub id: u16,
}

/// Why an operation on the ring did not succeed. None of these leaves the
/// ring unusable.
#[derive(Debug, Clone, Copy, PartialEq, Eq)]
pub enum ChordError {
    /// A search on a ring without members.
    NoNodesExist,
    /// A deletion that names an identifier no member has.
    NodeDoesNotExist,
    /// An addition to a ring in which every identifier is taken.
    RingIsFull,
    /// A search for a key outside the keyspace.
    OutOfRange,
}

/// The members of a ring, each stored under its identifier.
pub struct Chord {
    nodes: BTreeMap<u16, Node>,
}

impl View for Chord {
    type V = Set<u16>;

    /// The identifiers of the members.
    closed spec fn view(&self) -> Set<u16> {
        self.nodes@.dom()
    }
}

/// The keys of a map come out of `keys()` in strictly ascending order.
proof fn lemma_keys_ascend(keys: Seq<&u16>)
    requires
        vstd::std_specs::btree::increasing_seq(keys),
    ensures
        forall|i: int, j: int| 0 <= i < j < keys.len() ==> *keys[i] < *keys[j],
{
    reveal(vstd::laws_eq::obeys_eq_spec_properties);
    reveal(vstd::laws_cmp::obeys_partial_cmp_spec_properties);
    reveal(vstd::laws_cmp::obeys_cmp_partial_ord);
    reveal(vstd::laws_cmp::obeys_cmp_ord);
    assert(vstd::laws_cmp::obeys_cmp::<&u16>());
    assert forall|i: int, j: int| 0 <= i < j < keys.len() implies *keys[i] < *keys[j] by {
        assert(OrdSpec::cmp_spec(&keys[i], &keys[j]) is Less);
    }
}

/// A number drawn from `[0, bound)`. The body calls `rand::thread_rng` for the
/// generator of the running thread and `Rng::gen_range` on it with the range
/// `0..bound`. Believed of `gen_range`: it returns a value inside the range
/// that it was given. It panics on an empty range, which `bound > 0` rules
/// out. The generator can also panic where the operating system hands out no
/// entropy, when it is first used or reseeded; no condition on `bound` can
/// rule that out, and it is taken as running out of memory is. Nothing is
/// claimed about which value comes.
#[verifier::external_body]
fn draw_below(bound: u16) -> (drawn: u16)
    requires
        bound > 0,
    ensures
        drawn < bound,
{
    rand::thread_rng().gen_range(0..bound)
}

impl Chord {
    /// Every member sits under its own identifier, inside the keyspace.
    #[verifier::type_invariant]
    spec fn well_formed(&self) -> bool {
        forall|id: u16| #[trigger]
            self.nodes@.contains_key(id) ==> id < MAX_ID && self.nodes@[id].id == id
    }

    /// A ring without members.
    pub fn new() -> (ring: Self)
        ensures
            ring@ == Set::<u16>::empty(),
    {
        Chord { nodes: BTreeMap::new() }
    }

    /// Adds a node under an identifier that no member has, drawn at random,
    /// each free identifier being as likely as any other: one number is
    /// drawn below the count of free identifiers, and the free identifier of
    /// that rank is taken. Fails where every identifier is taken.
    pub fn add_node(&mut self) -> (outcome: Result<u16, ChordError>)
        ensures
            outcome is Err <==> is_full(old(self)@),
            match outcome {
                Ok(id) => joined(old(self)@, id, final(self)@) && final(self)@.len() == old(
                    self,
                )@.len() + 1,
                Err(e) => e == ChordError::RingIsFull && final(self)@ == old(self)@,
            },
            valid_ring(final(self)@),
    {
        proof {
            use_type_invariant(&*self);
            lemma_free_count(self@);
        }
        let taken = self.nodes.len();
        if taken >= MAX_ID as usize {
            return Err(ChordError::RingIsFull);
        }
        let free = MAX_ID - taken as u16;
        let rank = draw_below(free);
        let id = self.free_id_at(rank).unwrap();
        let mut nodes = BTreeMap::new();
        std::mem::swap(&mut nodes, &mut self.nodes);
        nodes.insert(id, Node { id });
        self.nodes = nodes;
        Ok(id)
    }

    /// The free identifier of rank `rank`, counting the free identifiers
    /// upward from rank 0 at the smallest; `None` where fewer than
    /// `rank + 1` identifiers are free.
    pub fn free_id_at(&self, rank: u16) -> (found: Option<u16>)
        ensures
            found is Some <==> rank < free_count(self@),
            found matches Some(id) ==> is_free_at_rank(self@, rank, id),
    {
        proof {
            use_type_invariant(self);
            assert(free_below(self@, 0) =~= Set::empty());
        }
        let mut id: u16 = 0;
        let mut passed: u16 = 0;
        while id < MAX_ID
            invariant
                id <= MAX_ID,
                passed == free_below(self@, id).len(),
                passed <= rank,
                self@.finite(),
            decreases MAX_ID - id,
        {
            if !self.nodes.contains_key(&id) {
                if passed == rank {
                    proof {
                        lemma_free_below_grows(self@, id, MAX_ID);
                    }
                    return Some(id);
                }
                passed += 1;
            }
            proof {
                lemma_free_below_step(self@, id);
            }
            id += 1;
        }
        None
    }

    /// Removes the member with identifier `id`. Fails, and leaves the ring as
    /// it was, where no member has that identifier.
    pub fn delete_node(&mut self, id: u16) -> (outcome: Result<(), ChordError>)
        ensures
            outcome == delete_outcome(old(self)@, id),
            final(self)@ == old(self)@.remove(id),
            outcome is Ok ==> final(self)@.len() == old(self)@.len() - 1,
            valid_ring(final(self)@),
    {
        proof {
            use_type_invariant(&*self);
        }
        let mut nodes = BTreeMap::new();
        std::mem::swap(&mut nodes, &mut self.nodes);
        let removed = nodes.remove(&id);
        self.nodes = nodes;
        if removed.is_some() {
            Ok(())
        } else {
            assert(self@ =~= old(self)@);
            Err(ChordError::NodeDoesNotExist)
        }
    }

    /// Finds the member responsible for `key`: the first member at or after
    /// `key` in ascending order, or the first member of all where none is.
    /// An empty ring is reported before a key outside the keyspace is.
    pub fn search(&self, key: u16) -> (found: Result<&Node, ChordError>)
        ensures
            match found {
                Ok(node) => search_outcome(self@, key) == Ok::<u16, ChordError>(node.id),
                Err(e) => search_outcome(self@, key) == Err::<u16, ChordError>(e),
            },
    {
        proof {
            use_type_invariant(self);
        }
        if self.nodes.is_empty() {
            return Err(ChordError::NoNodesExist);
        }
        if key >= MAX_ID {
            return Err(ChordError::OutOfRange);
        }
        let ghost keys = self.nodes.keys().remaining();
        proof {
            lemma_keys_ascend(keys);
            assert(lists_ascending(self@, keys.unref()));
        }
        let mut lowest: Option<&u16> = None;
        for id in it: self.nodes.keys()
            invariant
                it.seq() == keys,
                lists_ascending(self@, keys.unref()),
                self.well_formed(),
                forall|i: int| 0 <= i < it.index() ==> keys.unref()[i] < key,
                lowest == (if it.index() == 0 {
                    None
                } else {
                    Some(keys[0])
                }),
        {
            if *id >= key {
                proof {
                    lemma_successor_is_first_at_or_after(self@, keys.unref(), key, it.index());
                }
                return Ok(self.nodes.get(id).unwrap());
            }
            if lowest.is_none() {
                lowest = Some(id);
            }
        }
        proof {
            assert(keys.unref().contains(keys.unref()[0]));
            lemma_successor_wraps_to_first(self@, keys.unref(), key);
        }
        Ok(self.nodes.get(lowest.unwrap()).unwrap())
    }

    /// The identifiers of the members in ascending order, as a copy that later
    /// changes of the ring do not reach.
    pub fn get_ring(&self) -> (ring: Vec<u16>)
        ensures
            lists_ascending(self@, ring@),
            valid_ring(self@),
    {
        proof {
            use_type_invariant(self);
        }
        let mut ring: Vec<u16> = Vec::new();
        let ghost keys = self.nodes.keys().remaining();
        for id in it: self.nodes.keys()
            invariant
                it.seq() == keys,
                ring@ == keys.unref().take(it.index()),
        {
            ring.push(*id);
        }
        proof {
            assert(ring@ == keys.unref());
            lemma_keys_ascend(keys);
        }
        ring
    }
}

} // verus!
