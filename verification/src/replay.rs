//! Replaying an access pattern against a flat vector, directly and through
//! one level of indirection.
//!
//! An access pattern is a sequence of arbitrary words. It is walked
//! cyclically, and each word is reduced modulo the number of entries to pick
//! the entry that is read.

use crate::accumulator::{
    accumulate, add_to_accumulator, lemma_accumulate_concat, lemma_accumulate_empty,
};
use vstd::prelude::*;

verus! {

/// The logical slot that access number `step` picks among `entries` slots.
pub open spec fn picked_slot(access: Seq<usize>, entries: nat, step: int) -> int {
    (access[step % (access.len() as int)] as int) % (entries as int)
}

/// The values read by the first `count` accesses when each access reads
/// `values` at the slot it picks.
pub open spec fn direct_reads(values: Seq<usize>, access: Seq<usize>, count: nat) -> Seq<usize> {
    Seq::new(count, |step: int| values[picked_slot(access, values.len(), step)])
}

/// Whether every element of `slots` is a position in a vector of `entries`
/// payloads.
pub open spec fn slots_in_range(slots: Seq<usize>, entries: nat) -> bool {
    forall|i: int| 0 <= i < slots.len() ==> (#[trigger] slots[i]) < entries
}

/// The values read by the first `count` accesses when each access picks a
/// logical slot, follows `slots` to a physical position and reads `payloads`
/// there.
pub open spec fn indirect_reads(
    slots: Seq<usize>,
    payloads: Seq<usize>,
    access: Seq<usize>,
    count: nat,
) -> Seq<usize> {
    Seq::new(
        count,
        |step: int| payloads[slots[picked_slot(access, slots.len(), step)] as int],
    )
}

/// The slot an access picks is a valid slot.
pub proof fn lemma_picked_slot_in_range(access: Seq<usize>, entries: nat, step: int)
    requires
        access.len() > 0,
        entries > 0,
        0 <= step,
    ensures
        0 <= step % (access.len() as int) < access.len(),
        0 <= picked_slot(access, entries, step) < entries,
{
}

/// Adds to the accumulator the value that each of the first `access_count`
/// accesses reads directly from `values`.
pub fn replay_direct(
    values: &Vec<usize>,
    access: &Vec<usize>,
    access_count: usize,
    tmp: &mut usize,
)
    requires
        access_count > 0 ==> values.len() > 0 && access.len() > 0,
    ensures
        *final(tmp) == accumulate(
            *old(tmp),
            direct_reads(values@, access@, access_count as nat),
        ),
{
    proof {
        lemma_accumulate_empty(*tmp);
        assert(direct_reads(values@, access@, 0) =~= Seq::<usize>::empty());
    }
    let mut a: usize = 0;
    while a < access_count
        invariant
            a <= access_count,
            access_count > 0 ==> values.len() > 0 && access.len() > 0,
            *tmp == accumulate(*old(tmp), direct_reads(values@, access@, a as nat)),
        decreases access_count - a,
    {
        proof {
            lemma_picked_slot_in_range(access@, values@.len(), a as int);
        }
        let id: usize = access[a % access.len()] % values.len();
        let value: usize = values[id];
        proof {
            lemma_accumulate_concat(
                *old(tmp),
                direct_reads(values@, access@, a as nat),
                seq![value],
            );
            assert(direct_reads(values@, access@, a as nat) + seq![value] =~= direct_reads(
                values@,
                access@,
                (a + 1) as nat,
            ));
        }
        add_to_accumulator(tmp, value);
        a = a + 1;
    }
}

/// Adds to the accumulator the value that each of the first `access_count`
/// accesses reads from `payloads` through the indirection table `slots`.
pub fn replay_indirect(
    slots: &Vec<usize>,
    payloads: &Vec<usize>,
    access: &Vec<usize>,
    access_count: usize,
    tmp: &mut usize,
)
    requires
        access_count > 0 ==> slots.len() > 0 && access.len() > 0,
        slots_in_range(slots@, payloads@.len()),
    ensures
        *final(tmp) == accumulate(
            *old(tmp),
            indirect_reads(slots@, payloads@, access@, access_count as nat),
        ),
{
    proof {
        lemma_accumulate_empty(*tmp);
        assert(indirect_reads(slots@, payloads@, access@, 0) =~= Seq::<usize>::empty());
    }
    let mut a: usize = 0;
    while a < access_count
        invariant
            a <= access_count,
            access_count > 0 ==> slots.len() > 0 && access.len() > 0,
            slots_in_range(slots@, payloads@.len()),
            *tmp == accumulate(
                *old(tmp),
                indirect_reads(slots@, payloads@, access@, a as nat),
            ),
        decreases access_count - a,
    {
        proof {
            lemma_picked_slot_in_range(access@, slots@.len(), a as int);
        }
        let id: usize = slots[access[a % access.len()] % slots.len()];
        let value: usize = payloads[id];
        proof {
            lemma_accumulate_concat(
                *old(tmp),
                indirect_reads(slots@, payloads@, access@, a as nat),
                seq![value],
            );
            assert(indirect_reads(slots@, payloads@, access@, a as nat) + seq![value]
                =~= indirect_reads(slots@, payloads@, access@, (a + 1) as nat));
        }
        add_to_accumulator(tmp, value);
        a = a + 1;
    }
}

} // verus!
