//! Where the benchmark's data comes from.
//!
//! Every generation step draws from a generator that the caller passes in.
//! A source keeps account of the words it has yielded, so that what a
//! function built from a source can be stated in terms of the words it drew.
//! Two sources are provided: the calling thread's random generator, and a
//! scripted source that yields a given list of words, for runs that must be
//! repeatable.

use crate::replay::slots_in_range;
use rand::rngs::ThreadRng;
use rand::RngCore;
use vstd::arithmetic::div_mod::{
    lemma_fundamental_div_mod, lemma_fundamental_div_mod_converse, lemma_small_mod,
};
use vstd::prelude::*;

verus! {

/// A stream of 64-bit words. Nothing is assumed of the words it yields; the
/// source only keeps account of them.
pub trait RandomSource {
    /// The words this source has yielded so far, oldest first.
    spec fn drawn(&self) -> Seq<u64>;

    /// The script that decides every word of this source, where there is
    /// one. A source never changes its script.
    spec fn script(&self) -> Option<Seq<u64>>;

    /// Yields the next word of the stream. A source with a script yields
    /// the word that the script gives for this draw.
    fn next_u64(&mut self) -> (word: u64)
        ensures
            final(self).drawn() == old(self).drawn().push(word),
            final(self).script() == old(self).script(),
            old(self).script() matches Some(script) ==> word == scripted_word(
                script,
                old(self).drawn().len(),
            ),
    ;
}

/// The word a scripted source yields at its draw number `index`, counting
/// from zero: the script is walked cyclically, and an empty script yields
/// zeros.
pub open spec fn scripted_word(script: Seq<u64>, index: nat) -> u64 {
    if script.len() == 0 {
        0
    } else {
        script[(index % script.len()) as int]
    }
}

/// Whether the words that `after` holds beyond `before` are those that the
/// script, where there is one, gives for their draws.
pub open spec fn follows_script(
    script: Option<Seq<u64>>,
    before: Seq<u64>,
    after: Seq<u64>,
) -> bool {
    script matches Some(words) ==> forall|i: int|
        before.len() <= i < after.len() ==> #[trigger] after[i] == scripted_word(words, i as nat)
}

/// Whether a source that had yielded `before` and has now yielded `after`
/// drew exactly `count` more words in between.
pub open spec fn continues(before: Seq<u64>, after: Seq<u64>, count: nat) -> bool {
    &&& after.len() == before.len() + count
    &&& after.take(before.len() as int) == before
}

/// The words a source drew between having yielded `before` and `after`.
pub open spec fn fresh(before: Seq<u64>, after: Seq<u64>) -> Seq<u64> {
    after.skip(before.len() as int)
}

/// Two stretches of drawing one after the other make one stretch, whose
/// words are those of the first followed by those of the second.
pub proof fn lemma_continues_chain(
    start: Seq<u64>,
    middle: Seq<u64>,
    end: Seq<u64>,
    first: nat,
    second: nat,
)
    requires
        continues(start, middle, first),
        continues(middle, end, second),
    ensures
        continues(start, end, first + second),
        fresh(start, end) == fresh(start, middle) + fresh(middle, end),
        fresh(start, end).take(first as int) == fresh(start, middle),
        fresh(start, end).skip(first as int) == fresh(middle, end),
{
    assert(end.take(start.len() as int) =~= middle.take(start.len() as int)) by {
        assert(end.take(middle.len() as int) == middle);
        assert forall|i: int| 0 <= i < start.len() implies end[i] == middle[i] by {
            assert(end.take(middle.len() as int)[i] == end[i]);
        }
    }
    assert(fresh(start, end) =~= fresh(start, middle) + fresh(middle, end)) by {
        assert forall|i: int| 0 <= i < first + second implies fresh(start, end)[i] == (fresh(
            start,
            middle,
        ) + fresh(middle, end))[i] by {
            if i < first {
                assert(end.take(middle.len() as int)[start.len() + i] == end[start.len() + i]);
            }
        }
    }
    assert(fresh(start, end).take(first as int) =~= fresh(start, middle));
    assert(fresh(start, end).skip(first as int) =~= fresh(middle, end));
}

/// What drawing `count` words turns a source into: the history goes on by
/// `count` words, the script is the same, and where there is a script the
/// new words are the ones it gives.
pub open spec fn drew<R: RandomSource>(before: R, after: R, count: nat) -> bool {
    &&& continues(before.drawn(), after.drawn(), count)
    &&& after.script() == before.script()
    &&& follows_script(before.script(), before.drawn(), after.drawn())
}

/// The words a source drew between two of its states.
pub open spec fn words_between<R: RandomSource>(before: R, after: R) -> Seq<u64> {
    fresh(before.drawn(), after.drawn())
}

/// Drawing nothing leaves a source as one that drew no words.
pub proof fn lemma_drew_nothing<R: RandomSource>(source: R)
    ensures
        drew(source, source, 0),
        words_between(source, source) == Seq::<u64>::empty(),
{
    assert(source.drawn().take(source.drawn().len() as int) =~= source.drawn());
    assert(words_between(source, source) =~= Seq::<u64>::empty());
}

/// Two stretches of drawing one after the other make one stretch, whose
/// words are those of the first followed by those of the second.
pub proof fn lemma_drew_chain<R: RandomSource>(
    start: R,
    middle: R,
    end: R,
    first: nat,
    second: nat,
)
    requires
        drew(start, middle, first),
        drew(middle, end, second),
    ensures
        drew(start, end, first + second),
        words_between(start, end) == words_between(start, middle) + words_between(middle, end),
        words_between(start, end).take(first as int) == words_between(start, middle),
        words_between(start, end).skip(first as int) == words_between(middle, end),
{
    lemma_continues_chain(start.drawn(), middle.drawn(), end.drawn(), first, second);
    if start.script() is Some {
        let words = start.script()->0;
        assert forall|i: int| start.drawn().len() <= i < end.drawn().len() implies (
        #[trigger] end.drawn()[i]) == scripted_word(words, i as nat) by {
            if i < middle.drawn().len() {
                assert(end.drawn().take(middle.drawn().len() as int)[i] == end.drawn()[i]);
            }
        }
    }
}

/// A source with a script draws what the script says: two stretches of
/// drawing that start after equally many words, under one script, and draw
/// equally many words, draw the same words.
pub proof fn lemma_script_decides_words<R: RandomSource, S: RandomSource>(
    first_before: R,
    first_after: R,
    second_before: S,
    second_after: S,
    count: nat,
)
    requires
        drew(first_before, first_after, count),
        drew(second_before, second_after, count),
        first_before.script() is Some,
        first_before.script() == second_before.script(),
        first_before.drawn().len() == second_before.drawn().len(),
    ensures
        words_between(first_before, first_after) == words_between(second_before, second_after),
{
    let first = words_between(first_before, first_after);
    let second = words_between(second_before, second_after);
    let start = first_before.drawn().len() as int;
    assert forall|i: int| 0 <= i < count implies first[i] == second[i] by {
        assert(first[i] == first_after.drawn()[start + i]);
        assert(second[i] == second_after.drawn()[start + i]);
    }
    assert(first =~= second);
}

/// The words that a source with a script draws, starting after `skipped`
/// draws.
pub open spec fn scripted_words(script: Seq<u64>, skipped: nat, count: nat) -> Seq<u64> {
    Seq::new(count, |i: int| scripted_word(script, (skipped + i) as nat))
}

/// What a source with a script drew is what the script gives for those
/// draws.
pub proof fn lemma_drew_scripted_words<R: RandomSource>(before: R, after: R, count: nat)
    requires
        drew(before, after, count),
        before.script() is Some,
    ensures
        words_between(before, after) == scripted_words(
            before.script()->0,
            before.drawn().len(),
            count,
        ),
{
    let words = words_between(before, after);
    let start = before.drawn().len() as int;
    assert forall|i: int| 0 <= i < count implies words[i] == scripted_word(
        before.script()->0,
        (start + i) as nat,
    ) by {
        assert(words[i] == after.drawn()[start + i]);
    }
    assert(words =~= scripted_words(before.script()->0, before.drawn().len(), count));
}

/// `rand::rngs::ThreadRng`, the handle to a thread's generator. It is
/// carried through as an opaque value.
#[verifier::external_type_specification]
#[verifier::external_body]
pub struct ExThreadRng(ThreadRng);

/// `rand::thread_rng`: a handle to the calling thread's generator, which the
/// operating system seeds on first use. Nothing is claimed of the handle.
/// Should the operating system refuse the seed, the call does not return.
#[verifier::external_body]
fn thread_generator() -> ThreadRng {
    rand::thread_rng()
}

/// `RngCore::next_u64` on the thread-local generator: the next 64 random
/// bits. Nothing is claimed of the value, and two calls may differ. Should
/// the operating system refuse fresh entropy when the generator is due for
/// reseeding, the call does not return.
#[verifier::external_body]
fn thread_word(rng: &mut ThreadRng) -> u64 {
    rng.next_u64()
}

/// The calling thread's random number generator as a [`RandomSource`].
pub struct ThreadSource {
    rng: ThreadRng,
    history: Ghost<Seq<u64>>,
}

impl ThreadSource {
    /// A source backed by the calling thread's generator.
    pub fn new() -> (source: Self)
        ensures
            source.drawn() == Seq::<u64>::empty(),
    {
        ThreadSource { rng: thread_generator(), history: Ghost(Seq::empty()) }
    }
}

impl RandomSource for ThreadSource {
    closed spec fn drawn(&self) -> Seq<u64> {
        self.history@
    }

    /// Nothing decides the words of the thread's generator.
    open spec fn script(&self) -> Option<Seq<u64>> {
        None
    }

    fn next_u64(&mut self) -> (word: u64) {
        let word: u64 = thread_word(&mut self.rng);
        self.history = Ghost(self.history@.push(word));
        word
    }
}

/// How far a scripted source has come: the place in the script of the word
/// that is yielded next, and the words yielded so far.
struct Cursor {
    position: usize,
    history: Ghost<Seq<u64>>,
}

/// A source that yields the words of a script, in order and over again.
pub struct ScriptedSource {
    words: Vec<u64>,
    cursor: Cursor,
}

impl ScriptedSource {
    #[verifier::type_invariant]
    spec fn consistent(self) -> bool {
        if self.words.len() == 0 {
            self.cursor.position == 0
        } else {
            self.cursor.position == self.cursor.history@.len() % (self.words.len() as nat)
        }
    }

    /// A source that will yield `words[0]`, `words[1]`, and so on, and
    /// start over after the last.
    pub fn new(words: Vec<u64>) -> (source: Self)
        ensures
            source.script() == Some(words@),
            source.drawn() == Seq::<u64>::empty(),
    {
        proof {
            if words.len() > 0 {
                lemma_small_mod(0, words.len() as nat);
            }
        }
        ScriptedSource { words, cursor: Cursor { position: 0, history: Ghost(Seq::empty()) } }
    }

    /// The place in the script of the word that is yielded next.
    pub fn position(&self) -> (position: usize)
        ensures
            self.script() matches Some(script) && position == if script.len() == 0 {
                0
            } else {
                self.drawn().len() % script.len()
            },
    {
        proof {
            use_type_invariant(self);
        }
        self.cursor.position
    }
}

impl RandomSource for ScriptedSource {
    closed spec fn drawn(&self) -> Seq<u64> {
        self.cursor.history@
    }

    closed spec fn script(&self) -> Option<Seq<u64>> {
        Some(self.words@)
    }

    fn next_u64(&mut self) -> (word: u64) {
        proof {
            use_type_invariant(&*self);
        }
        if self.words.len() == 0 {
            self.cursor = Cursor { position: 0, history: Ghost(self.cursor.history@.push(0)) };
            return 0;
        }
        let position: usize = self.cursor.position;
        let word: u64 = self.words[position];
        let next: usize = if position + 1 == self.words.len() {
            0
        } else {
            position + 1
        };
        proof {
            let length = self.words.len() as int;
            let count = self.cursor.history@.len() as int;
            lemma_fundamental_div_mod(count, length);
            let quotient = count / length;
            if position + 1 == length {
                assert(count + 1 == (quotient + 1) * length + 0) by (nonlinear_arith)
                    requires
                        count == length * quotient + (length - 1),
                ;
                lemma_fundamental_div_mod_converse(count + 1, length, quotient + 1, 0);
            } else {
                assert(count + 1 == quotient * length + (position + 1)) by (nonlinear_arith)
                    requires
                        count == length * quotient + position,
                ;
                lemma_fundamental_div_mod_converse(count + 1, length, quotient, position + 1);
            }
        }
        self.cursor = Cursor { position: next, history: Ghost(self.cursor.history@.push(word)) };
        word
    }
}

/// The word-sized value that a drawn 64-bit word stands for: its low bits,
/// as many as a machine word has.
pub open spec fn word_of(drawn: u64) -> usize {
    drawn as usize
}

/// The word-sized values that a run of drawn words stands for.
pub open spec fn words_of(drawn: Seq<u64>) -> Seq<usize> {
    Seq::new(drawn.len(), |i: int| word_of(drawn[i]))
}

/// Of words drawn in pairs, the first of each pair.
pub open spec fn firsts(drawn: Seq<u64>) -> Seq<u64> {
    Seq::new(drawn.len() / 2, |i: int| drawn[2 * i])
}

/// Of words drawn in pairs, the second of each pair.
pub open spec fn seconds(drawn: Seq<u64>) -> Seq<u64> {
    Seq::new(drawn.len() / 2, |i: int| drawn[2 * i + 1])
}

/// The slots that a run of drawn words stands for in a table of `entries`
/// slots: each word reduced to a machine word, then modulo `entries`.
pub open spec fn slots_of(drawn: Seq<u64>, entries: nat) -> Seq<usize> {
    Seq::new(drawn.len(), |i: int| (word_of(drawn[i]) as nat % entries) as usize)
}

/// Reduces a drawn 64-bit word to a machine word by keeping its low bits.
pub fn to_word(drawn: u64) -> (word: usize)
    ensures
        word == word_of(drawn),
{
    #[verifier::truncate]
    (drawn as usize)
}

/// Draws `count` words from `rng` and appends them to `values`.
pub fn draw_onto<R: RandomSource>(rng: &mut R, values: &mut Vec<usize>, count: usize)
    ensures
        drew(*old(rng), *final(rng), count as nat),
        final(values)@ == old(values)@ + words_of(words_between(*old(rng), *final(rng))),
{
    let mut i: usize = 0;
    proof {
        lemma_drew_nothing(*rng);
        assert(values@ =~= old(values)@ + words_of(words_between(*old(rng), *rng)));
    }
    while i < count
        invariant
            i <= count,
            drew(*old(rng), *rng, i as nat),
            values@ == old(values)@ + words_of(words_between(*old(rng), *rng)),
        decreases count - i,
    {
        let ghost before = *rng;
        let word: u64 = rng.next_u64();
        values.push(to_word(word));
        proof {
            lemma_drew_one(before, *rng, word);
            lemma_drew_chain(*old(rng), before, *rng, i as nat, 1);
            assert(values@ =~= old(values)@ + words_of(words_between(*old(rng), *rng)));
        }
        i = i + 1;
    }
}

/// Draws `count` words from `rng`.
pub fn draw_values<R: RandomSource>(rng: &mut R, count: usize) -> (values: Vec<usize>)
    ensures
        drew(*old(rng), *final(rng), count as nat),
        values@ == words_of(words_between(*old(rng), *final(rng))),
{
    let mut values: Vec<usize> = Vec::new();
    draw_onto(rng, &mut values, count);
    assert(values@ =~= words_of(words_between(*old(rng), *rng)));
    values
}

/// Draws the access pattern for `entry_count` entries: four words for each
/// entry. The pattern is drawn in four stretches of `entry_count` words, so
/// its length is never computed and cannot overflow.
pub fn draw_pattern<R: RandomSource>(rng: &mut R, entry_count: usize) -> (access: Vec<usize>)
    ensures
        drew(*old(rng), *final(rng), 4 * entry_count as nat),
        access@ == words_of(words_between(*old(rng), *final(rng))),
{
    let mut access: Vec<usize> = Vec::new();
    draw_onto(rng, &mut access, entry_count);
    let ghost first = *rng;
    draw_onto(rng, &mut access, entry_count);
    let ghost second = *rng;
    draw_onto(rng, &mut access, entry_count);
    let ghost third = *rng;
    draw_onto(rng, &mut access, entry_count);
    proof {
        let stretch = entry_count as nat;
        lemma_drew_chain(*old(rng), first, second, stretch, stretch);
        lemma_drew_chain(*old(rng), second, third, 2 * stretch, stretch);
        lemma_drew_chain(*old(rng), third, *rng, 3 * stretch, stretch);
        assert(access@ =~= words_of(words_between(*old(rng), *rng)));
    }
    access
}

/// Draws `count` identifier and payload pairs from `rng`: for each pair the
/// identifier first, then its payload.
pub fn draw_entries<R: RandomSource>(rng: &mut R, count: usize) -> (entries: (
    Vec<usize>,
    Vec<usize>,
))
    ensures
        drew(*old(rng), *final(rng), 2 * count as nat),
        entries.0@ == words_of(firsts(words_between(*old(rng), *final(rng)))),
        entries.1@ == words_of(seconds(words_between(*old(rng), *final(rng)))),
{
    let mut ids: Vec<usize> = Vec::new();
    let mut payloads: Vec<usize> = Vec::new();
    let mut i: usize = 0;
    proof {
        lemma_drew_nothing(*rng);
        assert(ids@ =~= words_of(firsts(words_between(*old(rng), *rng))));
        assert(payloads@ =~= words_of(seconds(words_between(*old(rng), *rng))));
    }
    while i < count
        invariant
            i <= count,
            drew(*old(rng), *rng, 2 * i as nat),
            ids@ == words_of(firsts(words_between(*old(rng), *rng))),
            payloads@ == words_of(seconds(words_between(*old(rng), *rng))),
        decreases count - i,
    {
        let ghost before = *rng;
        let id_word: u64 = rng.next_u64();
        let ghost between = *rng;
        let payload_word: u64 = rng.next_u64();
        ids.push(to_word(id_word));
        payloads.push(to_word(payload_word));
        proof {
            lemma_drew_one(before, between, id_word);
            lemma_drew_one(between, *rng, payload_word);
            lemma_drew_chain(before, between, *rng, 1, 1);
            lemma_drew_chain(*old(rng), before, *rng, 2 * i as nat, 2);
            assert(words_between(*old(rng), *rng) =~= words_between(*old(rng), before)
                + seq![id_word] + seq![payload_word]);
            lemma_pair_drawn(
                words_between(*old(rng), before),
                words_between(*old(rng), *rng),
                id_word,
                payload_word,
            );
            assert(ids@ =~= words_of(firsts(words_between(*old(rng), *rng))));
            assert(payloads@ =~= words_of(seconds(words_between(*old(rng), *rng))));
        }
        i = i + 1;
    }
    (ids, payloads)
}

/// Draws `count` slot and payload pairs from `rng`: for each pair the slot
/// first, reduced modulo `count`, then its payload. The slots are drawn
/// independently, so two logical slots may lead to one physical position.
pub fn draw_slot_entries<R: RandomSource>(rng: &mut R, count: usize) -> (entries: (
    Vec<usize>,
    Vec<usize>,
))
    ensures
        drew(*old(rng), *final(rng), 2 * count as nat),
        entries.0@ == slots_of(firsts(words_between(*old(rng), *final(rng))), count as nat),
        entries.1@ == words_of(seconds(words_between(*old(rng), *final(rng)))),
        slots_in_range(entries.0@, count as nat),
{
    let mut slots: Vec<usize> = Vec::new();
    let mut payloads: Vec<usize> = Vec::new();
    let mut i: usize = 0;
    proof {
        lemma_drew_nothing(*rng);
        assert(slots@ =~= slots_of(firsts(words_between(*old(rng), *rng)), count as nat));
        assert(payloads@ =~= words_of(seconds(words_between(*old(rng), *rng))));
    }
    while i < count
        invariant
            i <= count,
            drew(*old(rng), *rng, 2 * i as nat),
            slots@ == slots_of(firsts(words_between(*old(rng), *rng)), count as nat),
            payloads@ == words_of(seconds(words_between(*old(rng), *rng))),
            slots_in_range(slots@, count as nat),
        decreases count - i,
    {
        let ghost before = *rng;
        let slot_word: u64 = rng.next_u64();
        let ghost between = *rng;
        let payload_word: u64 = rng.next_u64();
        slots.push(to_word(slot_word) % count);
        payloads.push(to_word(payload_word));
        proof {
            lemma_drew_one(before, between, slot_word);
            lemma_drew_one(between, *rng, payload_word);
            lemma_drew_chain(before, between, *rng, 1, 1);
            lemma_drew_chain(*old(rng), before, *rng, 2 * i as nat, 2);
            assert(words_between(*old(rng), *rng) =~= words_between(*old(rng), before)
                + seq![slot_word] + seq![payload_word]);
            lemma_pair_drawn(
                words_between(*old(rng), before),
                words_between(*old(rng), *rng),
                slot_word,
                payload_word,
            );
            assert(slots@ =~= slots_of(firsts(words_between(*old(rng), *rng)), count as nat));
            assert(payloads@ =~= words_of(seconds(words_between(*old(rng), *rng))));
        }
        i = i + 1;
    }
    (slots, payloads)
}

/// One draw is a stretch of one word.
proof fn lemma_drew_one<R: RandomSource>(before: R, after: R, word: u64)
    requires
        after.drawn() == before.drawn().push(word),
        after.script() == before.script(),
        before.script() matches Some(script) ==> word == scripted_word(
            script,
            before.drawn().len(),
        ),
    ensures
        drew(before, after, 1),
        words_between(before, after) == seq![word],
{
    assert(after.drawn().take(before.drawn().len() as int) =~= before.drawn());
    assert(words_between(before, after) =~= seq![word]);
}

/// One more pair extends the firsts by its first word and the seconds by
/// its second.
proof fn lemma_pair_drawn(before: Seq<u64>, after: Seq<u64>, first: u64, second: u64)
    requires
        before.len() % 2 == 0,
        after == before + seq![first] + seq![second],
    ensures
        firsts(after) == firsts(before).push(first),
        seconds(after) == seconds(before).push(second),
{
    assert(firsts(after) =~= firsts(before).push(first));
    assert(seconds(after) =~= seconds(before).push(second));
}

} // verus!
