//! Replaying an access pattern against a hash map keyed by word-sized
//! identifiers, with the hash strategy chosen by the caller.
//!
//! What a hash map does depends on its hash builder. The contracts here
//! speak of builders that hash consistently, which is what
//! `builds_valid_hashers` names. With any other builder a lookup may miss
//! an entry that was inserted; the replay reports such a miss.

use crate::accumulator::{
    accumulate, add_to_accumulator, lemma_accumulate_concat, lemma_accumulate_empty,
};
use crate::replay::{lemma_picked_slot_in_range, picked_slot};
use std::collections::HashMap;
use std::hash::BuildHasher;
use vstd::prelude::*;
use vstd::std_specs::hash::*;

verus! {

/// The map that results from inserting `ids[i] => payloads[i]` for each `i`
/// in order. Where an identifier occurs again, the later payload replaces
/// the earlier one.
pub open spec fn keyed_entries(ids: Seq<usize>, payloads: Seq<usize>) -> Map<usize, usize>
    decreases ids.len(),
{
    if ids.len() == 0 {
        Map::empty()
    } else {
        keyed_entries(ids.drop_last(), payloads.drop_last()).insert(ids.last(), payloads.last())
    }
}

/// Whether every identifier in `ids` is a key of `entries`.
pub open spec fn holds_all(entries: Map<usize, usize>, ids: Seq<usize>) -> bool {
    forall|i: int| 0 <= i < ids.len() ==> entries.contains_key(#[trigger] ids[i])
}

/// The identifier that access number `step` picks from `ids`.
pub open spec fn picked_id(ids: Seq<usize>, access: Seq<usize>, step: int) -> usize {
    ids[picked_slot(access, ids.len(), step)]
}

/// Whether each of the first `count` accesses picks an identifier that is a
/// key of `entries`.
pub open spec fn finds_all(
    entries: Map<usize, usize>,
    ids: Seq<usize>,
    access: Seq<usize>,
    count: nat,
) -> bool {
    forall|step: int|
        0 <= step < count ==> entries.contains_key(#[trigger] picked_id(ids, access, step))
}

/// The values read by the first `count` accesses when each access picks an
/// identifier from `ids` and looks it up in `entries`.
pub open spec fn keyed_reads(
    entries: Map<usize, usize>,
    ids: Seq<usize>,
    access: Seq<usize>,
    count: nat,
) -> Seq<usize> {
    Seq::new(count, |step: int| entries[picked_id(ids, access, step)])
}

/// A lookup that found nothing.
#[derive(Debug, Clone, Copy, PartialEq, Eq, Structural)]
pub struct MissedLookup {
    /// The number of the access that missed, counting from zero.
    pub step: usize,
    /// The identifier that was looked up.
    pub id: usize,
}

/// A map that holds every identifier is found to hold whichever identifier
/// an access picks.
pub proof fn lemma_holds_all_finds_all(
    entries: Map<usize, usize>,
    ids: Seq<usize>,
    access: Seq<usize>,
    count: nat,
)
    requires
        holds_all(entries, ids),
        count > 0 ==> ids.len() > 0 && access.len() > 0,
    ensures
        finds_all(entries, ids, access, count),
{
    assert forall|step: int| 0 <= step < count implies entries.contains_key(
        #[trigger] picked_id(ids, access, step),
    ) by {
        lemma_picked_slot_in_range(access, ids.len(), step);
    }
}

/// The keys of the map built from `ids` are exactly the identifiers that
/// occur in `ids`.
pub proof fn lemma_keyed_entries_dom(ids: Seq<usize>, payloads: Seq<usize>)
    requires
        ids.len() == payloads.len(),
    ensures
        keyed_entries(ids, payloads).dom() =~= ids.to_set(),
        keyed_entries(ids, payloads).dom().finite(),
        holds_all(keyed_entries(ids, payloads), ids),
    decreases ids.len(),
{
    if ids.len() == 0 {
        assert(ids.to_set() =~= Set::<usize>::empty());
    } else {
        lemma_keyed_entries_dom(ids.drop_last(), payloads.drop_last());
        let shorter = ids.drop_last();
        assert forall|k: usize| ids.to_set().contains(k) <==> (shorter.to_set().contains(k) || k
            == ids.last()) by {
            if ids.to_set().contains(k) {
                let i = choose|i: int| 0 <= i < ids.len() && ids[i] == k;
                if i < ids.len() - 1 {
                    assert(shorter[i] == k);
                }
            }
            if shorter.to_set().contains(k) {
                let i = choose|i: int| 0 <= i < shorter.len() && shorter[i] == k;
                assert(ids[i] == k);
            }
            if k == ids.last() {
                assert(ids[ids.len() - 1] == k);
            }
        }
        assert(keyed_entries(ids, payloads).dom() =~= ids.to_set());
        assert forall|i: int| 0 <= i < ids.len() implies keyed_entries(
            ids,
            payloads,
        ).contains_key(#[trigger] ids[i]) by {
            assert(ids.to_set().contains(ids[i]));
        }
    }
}

/// The payload stored under an identifier is the one that was inserted with
/// its last occurrence.
pub proof fn lemma_keyed_entries_last_wins(ids: Seq<usize>, payloads: Seq<usize>, i: int)
    requires
        ids.len() == payloads.len(),
        0 <= i < ids.len(),
        forall|j: int| i < j < ids.len() ==> ids[j] != ids[i],
    ensures
        keyed_entries(ids, payloads).contains_key(ids[i]),
        keyed_entries(ids, payloads)[ids[i]] == payloads[i],
    decreases ids.len(),
{
    if i < ids.len() - 1 {
        let shorter = ids.drop_last();
        assert(shorter[i] == ids[i]);
        assert forall|j: int| i < j < shorter.len() implies shorter[j] != shorter[i] by {
            assert(shorter[j] == ids[j]);
        }
        lemma_keyed_entries_last_wins(shorter, payloads.drop_last(), i);
        assert(ids.last() == ids[ids.len() - 1]);
    }
}

/// With no identifier drawn twice the map holds one entry per identifier.
pub proof fn lemma_keyed_entries_len(ids: Seq<usize>, payloads: Seq<usize>)
    requires
        ids.len() == payloads.len(),
        ids.no_duplicates(),
    ensures
        keyed_entries(ids, payloads).dom().len() == ids.len(),
{
    lemma_keyed_entries_dom(ids, payloads);
    ids.unique_seq_to_set();
}

/// The map never holds more entries than identifiers were inserted.
pub proof fn lemma_keyed_entries_len_bound(ids: Seq<usize>, payloads: Seq<usize>)
    requires
        ids.len() == payloads.len(),
    ensures
        keyed_entries(ids, payloads).dom().len() <= ids.len(),
{
    lemma_keyed_entries_dom(ids, payloads);
    vstd::seq_lib::seq_to_set_is_finite(ids);
    ids.lemma_cardinality_of_set();
}

/// `HashMap::capacity`: the number of entries the map can hold without
/// reallocating. The standard library documents it as a lower bound on what
/// the map is able to hold; the contract claims the one consequence that the
/// entries the map holds now are within it, and nothing of its exact value,
/// which is the allocator's choice.
#[verifier::external_body]
fn map_capacity<H: BuildHasher>(map: &HashMap<usize, usize, H>) -> (capacity: usize)
    ensures
        capacity >= map.len(),
{
    map.capacity()
}

/// Builds the hash map that holds `payloads[i]` under `ids[i]`.
pub fn build_keyed_map<H: BuildHasher + Default>(ids: &Vec<usize>, payloads: &Vec<usize>) -> (map:
    HashMap<usize, usize, H>)
    requires
        ids.len() == payloads.len(),
    ensures
        builds_valid_hashers::<H>() ==> map@ == keyed_entries(ids@, payloads@),
{
    let mut map: HashMap<usize, usize, H> = HashMap::default();
    let mut i: usize = 0;
    while i < ids.len()
        invariant
            i <= ids.len(),
            ids.len() == payloads.len(),
            builds_valid_hashers::<H>() ==> map@ == keyed_entries(
                ids@.take(i as int),
                payloads@.take(i as int),
            ),
        decreases ids.len() - i,
    {
        proof {
            assert(ids@.take(i + 1).drop_last() =~= ids@.take(i as int));
            assert(payloads@.take(i + 1).drop_last() =~= payloads@.take(i as int));
        }
        map.insert(ids[i], payloads[i]);
        i = i + 1;
    }
    proof {
        assert(ids@.take(ids.len() as int) =~= ids@);
        assert(payloads@.take(ids.len() as int) =~= payloads@);
    }
    map
}

/// The number of entries `map` can hold without reallocating. It is never
/// less than the number of entries the map holds.
pub fn keyed_capacity<H: BuildHasher>(map: &HashMap<usize, usize, H>) -> (capacity: usize)
    ensures
        builds_valid_hashers::<H>() ==> capacity >= map@.dom().len(),
{
    broadcast use axiom_spec_hash_map_len;

    map_capacity(map)
}

/// Adds to the accumulator the value that each of the first `access_count`
/// accesses finds in `map` under the identifier it picks from `ids`.
///
/// The replay stops at the first lookup that finds nothing and reports it;
/// the accumulator then holds what the accesses before it added. With a map
/// that holds every identifier no lookup misses.
pub fn replay_keyed<H: BuildHasher>(
    map: &HashMap<usize, usize, H>,
    ids: &Vec<usize>,
    access: &Vec<usize>,
    access_count: usize,
    tmp: &mut usize,
) -> (outcome: Result<(), MissedLookup>)
    requires
        access_count > 0 ==> ids.len() > 0 && access.len() > 0,
    ensures
        builds_valid_hashers::<H>() ==> (outcome is Ok <==> finds_all(
            map@,
            ids@,
            access@,
            access_count as nat,
        )),
        builds_valid_hashers::<H>() ==> match outcome {
            Ok(()) => *final(tmp) == accumulate(
                *old(tmp),
                keyed_reads(map@, ids@, access@, access_count as nat),
            ),
            Err(miss) => {
                &&& miss.step < access_count
                &&& miss.id == picked_id(ids@, access@, miss.step as int)
                &&& !map@.contains_key(miss.id)
                &&& finds_all(map@, ids@, access@, miss.step as nat)
                &&& *final(tmp) == accumulate(
                    *old(tmp),
                    keyed_reads(map@, ids@, access@, miss.step as nat),
                )
            },
        },
{
    proof {
        lemma_accumulate_empty(*tmp);
        assert(keyed_reads(map@, ids@, access@, 0) =~= Seq::<usize>::empty());
    }
    let mut a: usize = 0;
    while a < access_count
        invariant
            a <= access_count,
            access_count > 0 ==> ids.len() > 0 && access.len() > 0,
            builds_valid_hashers::<H>() ==> finds_all(map@, ids@, access@, a as nat),
            builds_valid_hashers::<H>() ==> *tmp == accumulate(
                *old(tmp),
                keyed_reads(map@, ids@, access@, a as nat),
            ),
        decreases access_count - a,
    {
        proof {
            lemma_picked_slot_in_range(access@, ids@.len(), a as int);
        }
        let id: usize = ids[access[a % access.len()] % ids.len()];
        match map.get(&id) {
            Some(value) => {
                proof {
                    lemma_accumulate_concat(
                        *old(tmp),
                        keyed_reads(map@, ids@, access@, a as nat),
                        seq![*value],
                    );
                    if builds_valid_hashers::<H>() {
                        assert(keyed_reads(map@, ids@, access@, a as nat) + seq![*value]
                            =~= keyed_reads(map@, ids@, access@, (a + 1) as nat));
                        assert(map@.contains_key(picked_id(ids@, access@, a as int)));
                    }
                }
                add_to_accumulator(tmp, *value);
            },
            None => {
                proof {
                    if builds_valid_hashers::<H>() {
                        assert(!map@.contains_key(picked_id(ids@, access@, a as int)));
                    }
                }
                return Err(MissedLookup { step: a, id });
            },
        }
        a = a + 1;
    }
    Ok(())
}

} // verus!
