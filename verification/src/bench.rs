//! The four timed measurements: a hash map with a hash strategy of the
//! caller's choice, a flat vector, and a vector behind an indirection table.
//!
//! Each measurement draws its own data, builds its structure, and times
//! nothing but the replay of the access pattern. The contracts say what the
//! accumulator holds afterwards as a function of the words that were drawn.

use crate::accumulator::{accumulate, lemma_accumulate_concat};
use crate::keyed::{
    build_keyed_map, keyed_capacity, keyed_entries, keyed_reads, lemma_holds_all_finds_all,
    lemma_keyed_entries_dom, lemma_keyed_entries_len, replay_keyed, MissedLookup,
};
use crate::replay::{direct_reads, indirect_reads, replay_direct, replay_indirect};
use crate::report::ReportRow;
use crate::source::{
    draw_entries, draw_pattern, draw_slot_entries, draw_values, drew, firsts, lemma_drew_chain,
    lemma_script_decides_words, seconds, slots_of, words_between, words_of, RandomSource,
};
use std::hash::BuildHasher;
use std::time::{Duration, Instant};
use vstd::prelude::*;
use vstd::std_specs::hash::*;

verus! {

/// `std::time::Instant`, a reading of the monotonic clock. It is carried
/// through as an opaque value.
#[verifier::external_type_specification]
#[verifier::external_body]
pub struct ExInstant(Instant);

/// `Instant::now`: a reading of the monotonic clock. Nothing is claimed of
/// the reading.
pub assume_specification[ Instant::now ]() -> (now: Instant)
;

/// `Instant::elapsed`: the time that has passed since the reading was taken.
/// Nothing is claimed of its length.
pub assume_specification[ Instant::elapsed ](start: &Instant) -> (elapsed: Duration)
;

/// `Duration::as_nanos`: the length of a duration in whole nanoseconds.
/// A duration is opaque here, so nothing is claimed of the number.
pub assume_specification[ Duration::as_nanos ](duration: &Duration) -> (nanos: u128)
;

/// The identifiers of a keyed measurement that drew `words`: of the first
/// `entries` pairs, the first word of each.
pub open spec fn keyed_ids(words: Seq<u64>, entries: nat) -> Seq<usize> {
    words_of(firsts(words.take(2 * entries as int)))
}

/// The payloads of a measurement that drew `words` in pairs: of the first
/// `entries` pairs, the second word of each.
pub open spec fn paired_payloads(words: Seq<u64>, entries: nat) -> Seq<usize> {
    words_of(seconds(words.take(2 * entries as int)))
}

/// The values a keyed measurement of `entries` entries reads in `count`
/// accesses when it drew `words`: the identifier and payload pairs first,
/// then the access pattern.
pub open spec fn keyed_run(words: Seq<u64>, entries: nat, count: nat) -> Seq<usize> {
    keyed_reads(
        keyed_entries(keyed_ids(words, entries), paired_payloads(words, entries)),
        keyed_ids(words, entries),
        words_of(words.skip(2 * entries as int)),
        count,
    )
}

/// The values a direct measurement of `entries` entries reads in `count`
/// accesses when it drew `words`: the values first, then the access pattern.
pub open spec fn direct_run(words: Seq<u64>, entries: nat, count: nat) -> Seq<usize> {
    direct_reads(words_of(words.take(entries as int)), words_of(words.skip(entries as int)), count)
}

/// The values an indirect measurement of `entries` entries reads in `count`
/// accesses when it drew `words`: the slot and payload pairs first, the
/// slots reduced modulo `entries`, then the access pattern.
pub open spec fn indirect_run(words: Seq<u64>, entries: nat, count: nat) -> Seq<usize> {
    indirect_reads(
        slots_of(firsts(words.take(2 * entries as int)), entries),
        paired_payloads(words, entries),
        words_of(words.skip(2 * entries as int)),
        count,
    )
}

/// The values the four measurements of one size read, one measurement after
/// the other, when together they drew `words`: six words per entry for each
/// keyed measurement, five for the direct one, six for the indirect one.
pub open spec fn size_run(words: Seq<u64>, entries: nat, count: nat) -> Seq<usize> {
    let first = words.subrange(0, 6 * entries as int);
    let second = words.subrange(6 * entries as int, 12 * entries as int);
    let third = words.subrange(12 * entries as int, 17 * entries as int);
    let fourth = words.subrange(17 * entries as int, 23 * entries as int);
    keyed_run(first, entries, count) + keyed_run(second, entries, count) + direct_run(
        third,
        entries,
        count,
    ) + indirect_run(fourth, entries, count)
}

/// A measurement is repeatable: from the same accumulator and the same
/// drawn words it ends with the same accumulator, whatever the clock read
/// and however the map laid out its entries.
pub proof fn lemma_same_words_same_accumulator(
    start: usize,
    first_words: Seq<u64>,
    second_words: Seq<u64>,
    entries: nat,
    count: nat,
)
    requires
        first_words =~= second_words,
    ensures
        accumulate(start, size_run(first_words, entries, count)) == accumulate(
            start,
            size_run(second_words, entries, count),
        ),
        accumulate(start, keyed_run(first_words, entries, count)) == accumulate(
            start,
            keyed_run(second_words, entries, count),
        ),
        accumulate(start, direct_run(first_words, entries, count)) == accumulate(
            start,
            direct_run(second_words, entries, count),
        ),
        accumulate(start, indirect_run(first_words, entries, count)) == accumulate(
            start,
            indirect_run(second_words, entries, count),
        ),
{
}

/// A measurement repeats under a fixed script: two sources that follow one
/// script and stand at the same place in it draw the same words, so from
/// the same accumulator either measurement ends with the same accumulator.
pub proof fn lemma_scripted_measurements_repeat<R: RandomSource, S: RandomSource>(
    first_before: R,
    first_after: R,
    second_before: S,
    second_after: S,
    drawn: nat,
    start: usize,
    entries: nat,
    count: nat,
)
    requires
        drew(first_before, first_after, drawn),
        drew(second_before, second_after, drawn),
        first_before.script() is Some,
        first_before.script() == second_before.script(),
        first_before.drawn().len() == second_before.drawn().len(),
    ensures
        accumulate(start, keyed_run(words_between(first_before, first_after), entries, count))
            == accumulate(
            start,
            keyed_run(words_between(second_before, second_after), entries, count),
        ),
        accumulate(start, direct_run(words_between(first_before, first_after), entries, count))
            == accumulate(
            start,
            direct_run(words_between(second_before, second_after), entries, count),
        ),
        accumulate(start, indirect_run(words_between(first_before, first_after), entries, count))
            == accumulate(
            start,
            indirect_run(words_between(second_before, second_after), entries, count),
        ),
        accumulate(start, size_run(words_between(first_before, first_after), entries, count))
            == accumulate(
            start,
            size_run(words_between(second_before, second_after), entries, count),
        ),
{
    lemma_script_decides_words(first_before, first_after, second_before, second_after, drawn);
}

/// Measures `access_count` lookups in a hash map of `entry_count` entries
/// that hashes with `H`, and adds every value found to the accumulator.
///
/// Returns the map's capacity and the time the lookups took in nanoseconds.
/// The capacity holds every entry of the map; that is every identifier
/// unless one was drawn twice. A lookup that finds nothing ends the
/// measurement with an error; with a hash builder that hashes consistently
/// there is none.
pub fn test_hashmap_with_size<H: BuildHasher + Default, R: RandomSource>(
    rng: &mut R,
    entry_count: usize,
    access_count: usize,
    tmp: &mut usize,
) -> (measured: Result<(usize, u128), MissedLookup>)
    requires
        access_count > 0 ==> entry_count > 0,
    ensures
        drew(*old(rng), *final(rng), 6 * entry_count as nat),
        builds_valid_hashers::<H>() ==> {
            let words = words_between(*old(rng), *final(rng));
            let ids = keyed_ids(words, entry_count as nat);
            let payloads = paired_payloads(words, entry_count as nat);
            &&& measured matches Ok(pair)
            &&& *final(tmp) == accumulate(
                *old(tmp),
                keyed_run(words, entry_count as nat, access_count as nat),
            )
            &&& pair.0 >= keyed_entries(ids, payloads).dom().len()
            &&& ids.no_duplicates() ==> pair.0 >= entry_count
        },
{
    let ghost before = *rng;
    let (ids, payloads) = draw_entries(rng, entry_count);
    let ghost between = *rng;
    let map = build_keyed_map::<H>(&ids, &payloads);
    let access: Vec<usize> = draw_pattern(rng, entry_count);
    proof {
        lemma_drew_chain(before, between, *rng, 2 * entry_count as nat, 4 * entry_count as nat);
        lemma_keyed_entries_dom(ids@, payloads@);
        if ids@.no_duplicates() {
            lemma_keyed_entries_len(ids@, payloads@);
        }
        lemma_holds_all_finds_all(
            keyed_entries(ids@, payloads@),
            ids@,
            access@,
            access_count as nat,
        );
    }

    let start = Instant::now();
    let outcome = replay_keyed(&map, &ids, &access, access_count, tmp);
    let duration = start.elapsed();

    match outcome {
        Ok(()) => Ok((keyed_capacity(&map), duration.as_nanos())),
        Err(miss) => Err(miss),
    }
}

/// Measures `access_count` direct reads of a vector of `entry_count` values,
/// and adds every value read to the accumulator.
///
/// Returns the time the reads took in nanoseconds.
pub fn test_vec_with_size<R: RandomSource>(
    rng: &mut R,
    entry_count: usize,
    access_count: usize,
    tmp: &mut usize,
) -> (nanos: u128)
    requires
        access_count > 0 ==> entry_count > 0,
    ensures
        drew(*old(rng), *final(rng), 5 * entry_count as nat),
        *final(tmp) == accumulate(
            *old(tmp),
            direct_run(
                words_between(*old(rng), *final(rng)),
                entry_count as nat,
                access_count as nat,
            ),
        ),
{
    let ghost before = *rng;
    let values: Vec<usize> = draw_values(rng, entry_count);
    let ghost between = *rng;
    let access: Vec<usize> = draw_pattern(rng, entry_count);
    proof {
        lemma_drew_chain(before, between, *rng, entry_count as nat, 4 * entry_count as nat);
    }

    let start = Instant::now();
    replay_direct(&values, &access, access_count, tmp);
    let duration = start.elapsed();

    duration.as_nanos()
}

/// Measures `access_count` reads of a vector of `entry_count` payloads
/// through an indirection table of the same length, and adds every value
/// read to the accumulator.
///
/// Returns the time the reads took in nanoseconds.
pub fn test_vec_with_size_dbl_ind<R: RandomSource>(
    rng: &mut R,
    entry_count: usize,
    access_count: usize,
    tmp: &mut usize,
) -> (nanos: u128)
    requires
        access_count > 0 ==> entry_count > 0,
    ensures
        drew(*old(rng), *final(rng), 6 * entry_count as nat),
        *final(tmp) == accumulate(
            *old(tmp),
            indirect_run(
                words_between(*old(rng), *final(rng)),
                entry_count as nat,
                access_count as nat,
            ),
        ),
{
    let ghost before = *rng;
    let (slots, payloads) = draw_slot_entries(rng, entry_count);
    let ghost between = *rng;
    let access: Vec<usize> = draw_pattern(rng, entry_count);
    proof {
        lemma_drew_chain(before, between, *rng, 2 * entry_count as nat, 4 * entry_count as nat);
    }

    let start = Instant::now();
    replay_indirect(&slots, &payloads, &access, access_count, tmp);
    let duration = start.elapsed();

    duration.as_nanos()
}

/// Runs the four measurements for one size, in the order of the report's
/// columns: the hash map that hashes with `A`, the hash map that hashes with
/// `B`, the vector read directly, the vector read through the indirection
/// table. The accumulator threads through all four.
///
/// Returns the row of the report for this size, with the capacity of the
/// first map. A lookup that finds nothing ends the run with an error; with
/// hash builders that hash consistently there is none.
pub fn measure_size<A: BuildHasher + Default, B: BuildHasher + Default, R: RandomSource>(
    rng: &mut R,
    size: usize,
    access_count: usize,
    tmp: &mut usize,
) -> (outcome: Result<ReportRow, MissedLookup>)
    requires
        access_count > 0 ==> size > 0,
    ensures
        final(rng).script() == old(rng).script(),
        outcome matches Ok(row) ==> row.size == size && drew(
            *old(rng),
            *final(rng),
            23 * size as nat,
        ),
        builds_valid_hashers::<A>() && builds_valid_hashers::<B>() ==> outcome is Ok && *final(tmp)
            == accumulate(
            *old(tmp),
            size_run(words_between(*old(rng), *final(rng)), size as nat, access_count as nat),
        ),
        builds_valid_hashers::<A>() ==> (outcome matches Ok(row) ==> {
            let words = words_between(*old(rng), *final(rng)).subrange(0, 6 * size as int);
            let ids = keyed_ids(words, size as nat);
            let payloads = paired_payloads(words, size as nat);
            &&& row.hashmap_capacity >= keyed_entries(ids, payloads).dom().len()
            &&& ids.no_duplicates() ==> row.hashmap_capacity >= size
        }),
{
    let ghost start = *tmp;
    let ghost source_0 = *rng;
    let hashmap_first = match test_hashmap_with_size::<A, R>(rng, size, access_count, tmp) {
        Ok(measured) => measured,
        Err(miss) => {
            return Err(miss);
        },
    };
    let ghost source_1 = *rng;
    let hashmap_second = match test_hashmap_with_size::<B, R>(rng, size, access_count, tmp) {
        Ok(measured) => measured,
        Err(miss) => {
            return Err(miss);
        },
    };
    let ghost source_2 = *rng;
    let vector_direct: u128 = test_vec_with_size(rng, size, access_count, tmp);
    let ghost source_3 = *rng;
    let vector_indirect: u128 = test_vec_with_size_dbl_ind(rng, size, access_count, tmp);
    proof {
        let entries = size as nat;
        let count = access_count as nat;
        let words = words_between(source_0, *rng);
        lemma_drew_chain(source_0, source_1, source_2, 6 * entries, 6 * entries);
        lemma_drew_chain(source_0, source_2, source_3, 12 * entries, 5 * entries);
        lemma_drew_chain(source_0, source_3, *rng, 17 * entries, 6 * entries);
        assert(words.subrange(0, 6 * entries as int) =~= words_between(source_0, source_1));
        assert(words.subrange(6 * entries as int, 12 * entries as int) =~= words_between(
            source_1,
            source_2,
        ));
        assert(words.subrange(12 * entries as int, 17 * entries as int) =~= words_between(
            source_2,
            source_3,
        ));
        assert(words.subrange(17 * entries as int, 23 * entries as int) =~= words_between(
            source_3,
            *rng,
        ));
        let first = keyed_run(words_between(source_0, source_1), entries, count);
        let second = keyed_run(words_between(source_1, source_2), entries, count);
        let third = direct_run(words_between(source_2, source_3), entries, count);
        let fourth = indirect_run(words_between(source_3, *rng), entries, count);
        lemma_accumulate_concat(start, first, second);
        lemma_accumulate_concat(start, first + second, third);
        lemma_accumulate_concat(start, first + second + third, fourth);
    }
    Ok(ReportRow::new(size, hashmap_first, hashmap_second.1, vector_direct, vector_indirect))
}

} // verus!
