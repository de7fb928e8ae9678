use std::collections::hash_map::{DefaultHasher, RandomState};
use std::hash::{BuildHasher, BuildHasherDefault, Hasher};
use std::sync::atomic::{AtomicU64, Ordering};
use usizehashmap_benchmark::bench::{
    measure_size, test_hashmap_with_size, test_vec_with_size, test_vec_with_size_dbl_ind,
};
use usizehashmap_benchmark::source::{
    draw_entries, draw_onto, draw_pattern, draw_slot_entries, draw_values, to_word,
    RandomSource, ScriptedSource, ThreadSource,
};
use usizehashmap_benchmark::keyed::MissedLookup;
use usizehashmap_benchmark::NoHasher;

#[derive(Default)]
struct Plugged(NoHasher);

impl Hasher for Plugged {
    fn write(&mut self, bytes: &[u8]) {
        if let Err(error) = self.0.write(bytes) {
            panic!("{}", error.message());
        }
    }

    fn write_usize(&mut self, n: usize) {
        if let Err(error) = self.0.write_usize(n) {
            panic!("{}", error.message());
        }
    }

    fn finish(&self) -> u64 {
        self.0.finish()
    }
}

/// A hash builder that hashes inconsistently: every hasher it builds marks
/// its digests with a number of its own, so no key hashes twice alike.
#[derive(Default)]
struct Fickle {
    built: AtomicU64,
}

struct Marked {
    mark: u64,
    digest: u64,
}

impl BuildHasher for Fickle {
    type Hasher = Marked;

    fn build_hasher(&self) -> Marked {
        Marked { mark: self.built.fetch_add(1, Ordering::Relaxed) % 128, digest: 0 }
    }
}

impl Hasher for Marked {
    fn write(&mut self, _bytes: &[u8]) {}

    fn write_usize(&mut self, n: usize) {
        self.digest = (n as u64 & 0x01FF_FFFF_FFFF_FFFF) | (self.mark << 57);
    }

    fn finish(&self) -> u64 {
        self.digest
    }
}

/// A scripted source whose script goes on after `words`, so that its
/// position counts the words drawn.
fn scripted(mut words: Vec<u64>) -> ScriptedSource {
    words.push(u64::MAX);
    ScriptedSource::new(words)
}

fn pattern(entries: u64, count: u64) -> Vec<u64> {
    (0..count).map(|step| step % entries).collect()
}

fn keyed_script() -> Vec<u64> {
    // identifier, payload, identifier, payload, ... then the access pattern
    let mut words = vec![1000u64, 10, 7, 20, 42, 30, 99, 40];
    words.extend(pattern(4, 16));
    words
}

#[test]
fn scripted_source_walks_its_script_over_again() {
    let mut source = ScriptedSource::new(vec![10, 20, 30]);
    assert_eq!(source.position(), 0);
    assert_eq!(source.next_u64(), 10);
    assert_eq!(source.next_u64(), 20);
    assert_eq!(source.position(), 2);
    assert_eq!(source.next_u64(), 30);
    assert_eq!(source.position(), 0);
    assert_eq!(source.next_u64(), 10);
    assert_eq!(source.next_u64(), 20);
    assert_eq!(source.next_u64(), 30);
    assert_eq!(source.next_u64(), 10);
    assert_eq!(source.position(), 1);
}

#[test]
fn scripted_source_of_one_word_repeats_it() {
    let mut source = ScriptedSource::new(vec![u64::MAX]);
    assert_eq!(source.next_u64(), u64::MAX);
    assert_eq!(source.next_u64(), u64::MAX);
    assert_eq!(source.position(), 0);
}

#[test]
fn scripted_source_without_a_script_yields_zeros() {
    let mut source = ScriptedSource::new(Vec::new());
    assert_eq!(source.next_u64(), 0);
    assert_eq!(source.next_u64(), 0);
    assert_eq!(source.position(), 0);
}

#[test]
fn two_scripted_sources_with_one_script_agree() {
    let mut first = ScriptedSource::new(vec![3, 1, 4, 1, 5, 9, 2, 6]);
    let mut second = ScriptedSource::new(vec![3, 1, 4, 1, 5, 9, 2, 6]);
    for _ in 0..20 {
        assert_eq!(first.next_u64(), second.next_u64());
    }
}

#[test]
fn thread_source_yields_words() {
    let mut source = ThreadSource::new();
    let words: Vec<u64> = (0..64).map(|_| source.next_u64()).collect();
    assert_eq!(words.len(), 64);
    // sixty-four equal words in a row do not come from a working generator
    assert!(words.iter().any(|word| *word != words[0]));
}

#[test]
fn to_word_keeps_small_words() {
    assert_eq!(to_word(0), 0);
    assert_eq!(to_word(1024), 1024);
    assert_eq!(to_word(u64::MAX), u64::MAX as usize);
}

#[test]
fn draw_values_takes_the_words_in_order() {
    let mut source = ScriptedSource::new(vec![7, 8, 9, 10]);
    let values = draw_values(&mut source, 3);
    assert_eq!(values, vec![7usize, 8, 9]);
    assert_eq!(source.position(), 3);
}

#[test]
fn draw_values_of_nothing_draws_nothing() {
    let mut source = ScriptedSource::new(Vec::new());
    assert!(draw_values(&mut source, 0).is_empty());
    assert_eq!(source.position(), 0);
}

#[test]
fn draw_onto_appends_to_what_is_there() {
    let mut source = scripted(vec![7, 8, 9]);
    let mut values = vec![1usize, 2];
    draw_onto(&mut source, &mut values, 3);
    assert_eq!(values, vec![1usize, 2, 7, 8, 9]);
    assert_eq!(source.position(), 3);
}

#[test]
fn draw_pattern_takes_four_words_for_each_entry() {
    let mut source = scripted(vec![1, 2, 3, 4, 5, 6, 7, 8, 9, 10, 11, 12]);
    let access = draw_pattern(&mut source, 3);
    assert_eq!(access, vec![1usize, 2, 3, 4, 5, 6, 7, 8, 9, 10, 11, 12]);
    assert_eq!(source.position(), 12);
}

#[test]
fn draw_pattern_for_no_entries_is_empty() {
    let mut source = scripted(vec![1, 2, 3]);
    assert!(draw_pattern(&mut source, 0).is_empty());
    assert_eq!(source.position(), 0);
}

#[test]
fn draw_entries_takes_identifier_then_payload() {
    let mut source = scripted(vec![1, 2, 3, 4, 5, 6]);
    let (ids, payloads) = draw_entries(&mut source, 3);
    assert_eq!(ids, vec![1usize, 3, 5]);
    assert_eq!(payloads, vec![2usize, 4, 6]);
    assert_eq!(source.position(), 6);
}

#[test]
fn draw_slot_entries_reduces_the_slots() {
    let mut source = scripted(vec![5, 10, 6, 20, 7, 30, 4, 40]);
    let (slots, payloads) = draw_slot_entries(&mut source, 4);
    assert_eq!(slots, vec![1usize, 2, 3, 0]);
    assert_eq!(payloads, vec![10usize, 20, 30, 40]);
    assert_eq!(source.position(), 8);
}

#[test]
fn draw_slot_entries_may_repeat_a_slot() {
    let mut source = ScriptedSource::new(vec![9, 1, 3, 2, 6, 3]);
    let (slots, payloads) = draw_slot_entries(&mut source, 3);
    assert_eq!(slots, vec![0usize, 0, 0]);
    assert_eq!(payloads, vec![1usize, 2, 3]);
}

#[test]
fn thread_source_fills_what_is_asked() {
    let mut source = ThreadSource::new();
    assert_eq!(draw_values(&mut source, 100).len(), 100);
    let (slots, payloads) = draw_slot_entries(&mut source, 50);
    assert_eq!(slots.len(), 50);
    assert_eq!(payloads.len(), 50);
    assert!(slots.iter().all(|slot| *slot < 50));
}

#[test]
fn vector_measurement_of_four_payloads_adds_four_hundred() {
    let mut words = vec![10u64, 20, 30, 40];
    words.extend(pattern(4, 16));
    let mut source = scripted(words);
    let mut tmp = 0usize;
    test_vec_with_size(&mut source, 4, 16, &mut tmp);
    assert_eq!(tmp, 400);
    assert_eq!(source.position(), 20);
}

#[test]
fn vector_measurement_with_a_fixed_script_repeats() {
    let mut words = vec![3u64, 1, 4, 1, 5];
    words.extend(vec![9u64, 2, 6, 5, 3, 5, 8, 9, 7, 9, 3, 2, 3, 8, 4, 6, 2, 6, 4, 3]);
    let mut first = 11usize;
    let mut second = 11usize;
    test_vec_with_size(&mut ScriptedSource::new(words.clone()), 5, 1000, &mut first);
    test_vec_with_size(&mut ScriptedSource::new(words), 5, 1000, &mut second);
    assert_eq!(first, second);
}

#[test]
fn vector_measurement_wraps_on_overflow() {
    let mut source = ScriptedSource::new(vec![u64::MAX, 0, 0, 0, 0]);
    let mut tmp = 5usize;
    test_vec_with_size(&mut source, 1, 2, &mut tmp);
    assert_eq!(tmp, 3);
}

#[test]
fn vector_measurement_without_entries_or_accesses_does_nothing() {
    let mut source = ScriptedSource::new(Vec::new());
    let mut tmp = 17usize;
    test_vec_with_size(&mut source, 0, 0, &mut tmp);
    assert_eq!(tmp, 17);
    assert_eq!(source.position(), 0);
}

#[test]
fn indirect_measurement_follows_the_drawn_slots() {
    // slot, payload pairs: slots 5 % 4, 6 % 4, 7 % 4, 4 % 4
    let mut words = vec![5u64, 10, 6, 20, 7, 30, 4, 40];
    words.extend(pattern(4, 16));
    let mut source = scripted(words);
    let mut tmp = 0usize;
    test_vec_with_size_dbl_ind(&mut source, 4, 16, &mut tmp);
    assert_eq!(tmp, 400);
    assert_eq!(source.position(), 24);
}

#[test]
fn indirect_measurement_with_a_repeated_slot() {
    // both logical slots lead to position 1
    let mut source = ScriptedSource::new(vec![3, 100, 5, 7, 0, 1, 0, 1, 0, 1, 0, 1]);
    let mut tmp = 0usize;
    test_vec_with_size_dbl_ind(&mut source, 2, 3, &mut tmp);
    assert_eq!(tmp, 21);
}

#[test]
fn keyed_measurement_with_the_seeded_default_hash() {
    let mut source = scripted(keyed_script());
    let mut tmp = 0usize;
    let (capacity, _nanos) =
        test_hashmap_with_size::<RandomState, ScriptedSource>(&mut source, 4, 16, &mut tmp)
        .unwrap();
    assert_eq!(tmp, 400);
    assert!(capacity >= 4);
    assert_eq!(source.position(), 24);
}

#[test]
fn keyed_measurement_with_the_unseeded_default_hash() {
    let mut source = ScriptedSource::new(keyed_script());
    let mut tmp = 1usize;
    let (capacity, _nanos) = test_hashmap_with_size::<BuildHasherDefault<DefaultHasher>, ScriptedSource>(
        &mut source,
        4,
        16,
        &mut tmp,
    )
    .unwrap();
    assert_eq!(tmp, 401);
    assert!(capacity >= 4);
}

#[test]
fn keyed_measurement_with_the_identity_hash() {
    let mut source = ScriptedSource::new(keyed_script());
    let mut tmp = 0usize;
    let (capacity, _nanos) = test_hashmap_with_size::<BuildHasherDefault<Plugged>, ScriptedSource>(
        &mut source,
        4,
        16,
        &mut tmp,
    )
    .unwrap();
    assert_eq!(tmp, 400);
    assert!(capacity >= 4);
}

#[test]
fn keyed_measurement_with_a_repeated_identifier() {
    // identifier 5 is drawn twice; its later payload 100 is what is found
    let mut words = vec![5u64, 1, 6, 10, 5, 100];
    words.extend(pattern(3, 12));
    let mut source = ScriptedSource::new(words);
    let mut tmp = 0usize;
    let (capacity, _nanos) =
        test_hashmap_with_size::<RandomState, ScriptedSource>(&mut source, 3, 3, &mut tmp)
        .unwrap();
    assert_eq!(tmp, 210);
    assert!(capacity >= 2);
}

#[test]
fn keyed_measurement_reports_a_lookup_that_misses() {
    let mut source = ScriptedSource::new(keyed_script());
    let mut tmp = 9usize;
    let measured = test_hashmap_with_size::<Fickle, ScriptedSource>(&mut source, 4, 16, &mut tmp);
    assert_eq!(measured, Err(MissedLookup { step: 0, id: 1000 }));
    assert_eq!(tmp, 9);
}

#[test]
fn one_size_stops_at_a_lookup_that_misses() {
    let mut source = scripted(size_script());
    let mut tmp = 0usize;
    let measured = measure_size::<RandomState, Fickle, ScriptedSource>(
        &mut source,
        4,
        16,
        &mut tmp,
    );
    assert_eq!(measured, Err(MissedLookup { step: 0, id: 8 }));
    // the first measurement ran; the second drew its data and stopped
    assert_eq!(tmp, 400);
    assert_eq!(source.position(), 48);
}

#[test]
fn keyed_measurement_holds_a_thousand_distinct_identifiers() {
    let mut words: Vec<u64> = Vec::new();
    for key in 0..1024u64 {
        words.push(key * 2654435761 + 17);
        words.push(1);
    }
    words.extend(pattern(1024, 4096));
    let mut source = ScriptedSource::new(words);
    let mut tmp = 0usize;
    let (capacity, _nanos) = test_hashmap_with_size::<BuildHasherDefault<DefaultHasher>, ScriptedSource>(
        &mut source,
        1024,
        5000,
        &mut tmp,
    )
    .unwrap();
    assert!(capacity >= 1024);
    assert_eq!(tmp, 5000);
}

#[test]
fn measurements_with_the_thread_source_terminate() {
    let mut source = ThreadSource::new();
    let mut tmp = 0usize;
    let (capacity, _nanos) =
        test_hashmap_with_size::<BuildHasherDefault<Plugged>, ThreadSource>(
            &mut source,
            64,
            1000,
            &mut tmp,
        )
        .unwrap();
    assert!(capacity >= 1);
    test_vec_with_size(&mut source, 64, 1000, &mut tmp);
    test_vec_with_size_dbl_ind(&mut source, 64, 1000, &mut tmp);
}

fn size_script() -> Vec<u64> {
    let mut words = keyed_script();
    words.extend(vec![8u64, 1, 9, 2, 10, 3, 11, 4]);
    words.extend(pattern(4, 16));
    words.extend(vec![100u64, 200, 300, 400]);
    words.extend(pattern(4, 16));
    words.extend(vec![5u64, 10, 6, 20, 7, 30, 4, 40]);
    words.extend(pattern(4, 16));
    words
}

#[test]
fn one_size_runs_all_four_measurements_on_one_accumulator() {
    let mut source = scripted(size_script());
    let mut tmp = 0usize;
    let row = measure_size::<BuildHasherDefault<DefaultHasher>, BuildHasherDefault<Plugged>, ScriptedSource>(
        &mut source,
        4,
        16,
        &mut tmp,
    )
    .unwrap();
    // 4 * (10+20+30+40) + 4 * (1+2+3+4) + 4 * (100+200+300+400) + 4 * (10+20+30+40)
    assert_eq!(tmp, 400 + 40 + 4000 + 400);
    assert_eq!(row.size, 4);
    assert!(row.hashmap_capacity >= 4);
    assert_eq!(source.position(), 24 + 24 + 20 + 24);
}

#[test]
fn one_size_with_a_fixed_script_repeats() {
    let mut first = 3usize;
    let mut second = 3usize;
    measure_size::<RandomState, BuildHasherDefault<Plugged>, ScriptedSource>(
        &mut ScriptedSource::new(size_script()),
        4,
        13,
        &mut first,
    )
    .unwrap();
    measure_size::<RandomState, BuildHasherDefault<Plugged>, ScriptedSource>(
        &mut ScriptedSource::new(size_script()),
        4,
        13,
        &mut second,
    )
    .unwrap();
    assert_eq!(first, second);
}
