//! The accumulator that every measured read is folded into.
//!
//! The accumulator is a machine word and additions wrap. Its value after any
//! number of additions is therefore the true sum reduced modulo the number of
//! values a word can take.

use vstd::arithmetic::div_mod::{
    lemma_add_mod_noop, lemma_mod_sub_multiples_vanish, lemma_small_mod,
};
use vstd::prelude::*;
use vstd::wrapping::usize_specs;

verus! {

/// The number of distinct values of a machine word.
pub open spec fn word_modulus() -> int {
    usize::MAX + 1
}

/// The sum of `values` as an unbounded natural number.
pub open spec fn total(values: Seq<usize>) -> nat
    decreases values.len(),
{
    if values.len() == 0 {
        0
    } else {
        total(values.drop_last()) + values.last() as nat
    }
}

/// The accumulator that starts at `start` after every element of `values`
/// has been added to it, each addition wrapping on overflow.
pub open spec fn accumulate(start: usize, values: Seq<usize>) -> usize {
    ((start + total(values)) % word_modulus()) as usize
}

/// The sum of a sequence extended by one value is the old sum plus that value.
pub proof fn lemma_total_push(values: Seq<usize>, value: usize)
    ensures
        total(values.push(value)) == total(values) + value,
{
    assert(values.push(value).drop_last() =~= values);
}

/// The sum of a concatenation is the sum of the sums.
pub proof fn lemma_total_concat(first: Seq<usize>, second: Seq<usize>)
    ensures
        total(first + second) == total(first) + total(second),
    decreases second.len(),
{
    if second.len() == 0 {
        assert(first + second =~= first);
    } else {
        assert((first + second).drop_last() =~= first + second.drop_last());
        lemma_total_concat(first, second.drop_last());
    }
}

/// A wrapping addition of two words is their sum modulo the word modulus.
pub proof fn lemma_wrapping_add_is_modular(x: usize, y: usize)
    ensures
        usize_specs::wrapping_add(x, y) == (x + y) % word_modulus(),
{
    let m = word_modulus();
    if x + y > usize::MAX {
        lemma_mod_sub_multiples_vanish(x + y, m);
        lemma_small_mod((x + y - m) as nat, m as nat);
    } else {
        lemma_small_mod((x + y) as nat, m as nat);
    }
}

/// Adding nothing leaves the accumulator as it was.
pub proof fn lemma_accumulate_empty(start: usize)
    ensures
        accumulate(start, Seq::<usize>::empty()) == start,
{
    lemma_small_mod(start as nat, word_modulus() as nat);
}

/// Adding one more value to the accumulator is one wrapping addition.
pub proof fn lemma_accumulate_push(start: usize, values: Seq<usize>, value: usize)
    ensures
        accumulate(start, values.push(value)) == usize_specs::wrapping_add(
            accumulate(start, values),
            value,
        ),
{
    let m = word_modulus();
    let before = start + total(values);
    lemma_total_push(values, value);
    lemma_wrapping_add_is_modular(accumulate(start, values), value);
    lemma_add_mod_noop(before, value as int, m);
    lemma_small_mod(value as nat, m as nat);
}

/// Accumulating two runs one after the other is accumulating their
/// concatenation: the accumulator threads through consecutive runs.
pub proof fn lemma_accumulate_concat(start: usize, first: Seq<usize>, second: Seq<usize>)
    ensures
        accumulate(accumulate(start, first), second) == accumulate(start, first + second),
{
    let m = word_modulus();
    lemma_total_concat(first, second);
    lemma_add_mod_noop(start + total(first), total(second) as int, m);
    lemma_add_mod_noop(((start + total(first)) % m), total(second) as int, m);
    lemma_small_mod(((start + total(first)) % m) as nat, m as nat);
}

/// While the true sum fits in a word the accumulator holds exactly that sum.
pub proof fn lemma_accumulate_without_overflow(start: usize, values: Seq<usize>)
    requires
        start + total(values) <= usize::MAX,
    ensures
        accumulate(start, values) == start + total(values),
{
    lemma_small_mod((start + total(values)) as nat, word_modulus() as nat);
}

/// The accumulator and the true sum always differ by a whole number of
/// word moduli: overflow wraps around and loses nothing else.
pub proof fn lemma_accumulate_wraps(start: usize, values: Seq<usize>)
    ensures
        exists|wraps: nat|
            start + total(values) == accumulate(start, values) + #[trigger] (wraps
                * word_modulus()),
{
    let m = word_modulus();
    let sum = start + total(values);
    vstd::arithmetic::div_mod::lemma_fundamental_div_mod(sum, m);
    vstd::arithmetic::div_mod::lemma_div_pos_is_pos(sum, m);
    let wraps = (sum / m) as nat;
    vstd::arithmetic::mul::lemma_mul_is_commutative(m, sum / m);
    assert(sum == accumulate(start, values) + wraps * word_modulus());
}

/// Adds `value` to the accumulator, wrapping on overflow.
pub fn add_to_accumulator(tmp: &mut usize, value: usize)
    ensures
        *final(tmp) == accumulate(*old(tmp), seq![value]),
{
    proof {
        lemma_accumulate_empty(*tmp);
        lemma_accumulate_push(*tmp, Seq::<usize>::empty(), value);
        assert(Seq::<usize>::empty().push(value) =~= seq![value]);
    }
    *tmp = tmp.wrapping_add(value);
}

} // verus!
