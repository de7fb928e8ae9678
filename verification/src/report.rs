//! The report: which sizes are measured, how a measured time is reported,
//! and how one row of the report reads.

use vstd::prelude::*;
use vstd::string::*;

verus! {

/// The number of lookups replayed against every structure.
pub const ACCESS_COUNT: usize = 1073741824;

/// Nanoseconds in one millisecond.
pub const NANOS_PER_MILLI: u128 = 1000000;

/// The sizes that are measured: from 1024 entries up to 1024 × 1024, each
/// twice the one before.
pub open spec fn sweep() -> Seq<usize> {
    seq![1024, 2048, 4096, 8192, 16384, 32768, 65536, 131072, 262144, 524288, 1048576]
}

/// The sizes that are measured, smallest first.
pub fn sizes() -> (sizes: Vec<usize>)
    ensures
        sizes@ == sweep(),
{
    let sizes: Vec<usize> = vec![
        1024,
        2048,
        4096,
        8192,
        16384,
        32768,
        65536,
        131072,
        262144,
        524288,
        1048576,
    ];
    assert(sizes@ =~= sweep());
    sizes
}

/// The sweep starts at 1024, doubles at every step and ends at 1024 × 1024.
pub proof fn lemma_sweep_doubles()
    ensures
        sweep().len() == 11,
        sweep()[0] == 1024,
        forall|i: int| 0 <= i < 10 ==> #[trigger] sweep()[i + 1] == 2 * sweep()[i],
        sweep()[10] == 1024 * 1024,
{
    assert forall|i: int| 0 <= i < 10 implies #[trigger] sweep()[i + 1] == 2 * sweep()[i] by {
        if i == 0 {
        } else if i == 1 {
        } else if i == 2 {
        } else if i == 3 {
        } else if i == 4 {
        } else if i == 5 {
        } else if i == 6 {
        } else if i == 7 {
        } else if i == 8 {
        } else {
        }
    }
}

/// Every size of the sweep has entries to read, so every size can be
/// measured.
pub proof fn lemma_sweep_measurable(i: int)
    requires
        0 <= i < sweep().len(),
    ensures
        0 < sweep()[i] <= 1048576,
{
    assert(sweep()[i] <= 1048576) by {
        if i == 0 {
        } else if i == 1 {
        } else if i == 2 {
        } else if i == 3 {
        } else if i == 4 {
        } else if i == 5 {
        } else if i == 6 {
        } else if i == 7 {
        } else if i == 8 {
        } else if i == 9 {
        } else {
        }
    }
    assert(0 < sweep()[i]);
}

/// A time in whole milliseconds: the nanoseconds divided by a million, the
/// remainder dropped.
pub fn nanos_to_millis(nanos: u128) -> (millis: u128)
    ensures
        millis == nanos / 1000000,
{
    nanos / NANOS_PER_MILLI
}

/// One row of the report: what was measured for one size.
#[derive(Debug, Clone, Copy, PartialEq, Eq, Structural)]
pub struct ReportRow {
    /// The number of entries in each structure.
    pub size: usize,
    /// Milliseconds for the hash map with the general-purpose hash.
    pub hashmap_default_ms: u128,
    /// Milliseconds for the hash map with the identity hash.
    pub hashmap_identity_ms: u128,
    /// Capacity of the hash map with the general-purpose hash.
    pub hashmap_capacity: usize,
    /// Milliseconds for the vector read directly.
    pub vector_direct_ms: u128,
    /// Milliseconds for the vector read through the indirection table.
    pub vector_indirect_ms: u128,
}

/// The character for one decimal digit.
pub open spec fn digit_char(digit: nat) -> char
    recommends
        digit < 10,
{
    if digit == 0 {
        '0'
    } else if digit == 1 {
        '1'
    } else if digit == 2 {
        '2'
    } else if digit == 3 {
        '3'
    } else if digit == 4 {
        '4'
    } else if digit == 5 {
        '5'
    } else if digit == 6 {
        '6'
    } else if digit == 7 {
        '7'
    } else if digit == 8 {
        '8'
    } else {
        '9'
    }
}

/// The decimal numeral of `n`, without leading zeros.
pub open spec fn decimal(n: nat) -> Seq<char>
    decreases n,
{
    if n < 10 {
        seq![digit_char(n)]
    } else {
        decimal(n / 10).push(digit_char(n % 10))
    }
}

/// What separates two fields of a row.
pub open spec fn separator() -> Seq<char> {
    seq![';', ' ']
}

/// The text of a row: its six fields as decimal numerals, in the order
/// size, default-hash milliseconds, identity-hash milliseconds, capacity,
/// direct milliseconds, indirect milliseconds, separated by `"; "`.
pub open spec fn row_text(row: ReportRow) -> Seq<char> {
    decimal(row.size as nat) + separator() + decimal(row.hashmap_default_ms as nat) + separator()
        + decimal(row.hashmap_identity_ms as nat) + separator() + decimal(
        row.hashmap_capacity as nat,
    ) + separator() + decimal(row.vector_direct_ms as nat) + separator() + decimal(
        row.vector_indirect_ms as nat,
    )
}

/// `String::push`: appends one character to the end of the string.
#[verifier::external_body]
fn push_char(text: &mut String, c: char)
    ensures
        final(text)@ == old(text)@.push(c),
{
    text.push(c)
}

fn digit_to_char(digit: u128) -> (c: char)
    requires
        digit < 10,
    ensures
        c == digit_char(digit as nat),
{
    if digit == 0 {
        '0'
    } else if digit == 1 {
        '1'
    } else if digit == 2 {
        '2'
    } else if digit == 3 {
        '3'
    } else if digit == 4 {
        '4'
    } else if digit == 5 {
        '5'
    } else if digit == 6 {
        '6'
    } else if digit == 7 {
        '7'
    } else if digit == 8 {
        '8'
    } else {
        '9'
    }
}

/// Appends the decimal numeral of `n` to `text`.
pub fn push_decimal(text: &mut String, n: u128)
    ensures
        final(text)@ == old(text)@ + decimal(n as nat),
    decreases n,
{
    if n >= 10 {
        push_decimal(text, n / 10);
    }
    push_char(text, digit_to_char(n % 10));
    assert(text@ =~= old(text)@ + decimal(n as nat));
}

fn push_separator(text: &mut String)
    ensures
        final(text)@ == old(text)@ + separator(),
{
    proof {
        reveal_strlit("; ");
    }
    text.append("; ");
    assert("; "@ =~= separator());
}

/// The first line of the report, which names the columns.
pub fn header() -> (text: &'static str)
    ensures
        text@
            == "Element Count; Default HashMap(ms); NoHasher HashMap(ms); HashMap capacity; Vector(No Indirection)(ms); Vector(Indirection)(ms)"@,
{
    "Element Count; Default HashMap(ms); NoHasher HashMap(ms); HashMap capacity; Vector(No Indirection)(ms); Vector(Indirection)(ms)"
}

impl ReportRow {
    /// The row for `size` entries from what the four measurements returned:
    /// capacity and nanoseconds of the default-hash map, then the
    /// nanoseconds of the identity-hash map, the direct vector and the
    /// indirect vector. Times are reported in whole milliseconds.
    pub fn new(
        size: usize,
        hashmap_default: (usize, u128),
        hashmap_identity_nanos: u128,
        vector_direct_nanos: u128,
        vector_indirect_nanos: u128,
    ) -> (row: ReportRow)
        ensures
            row == (ReportRow {
                size,
                hashmap_default_ms: hashmap_default.1 / 1000000,
                hashmap_identity_ms: hashmap_identity_nanos / 1000000,
                hashmap_capacity: hashmap_default.0,
                vector_direct_ms: vector_direct_nanos / 1000000,
                vector_indirect_ms: vector_indirect_nanos / 1000000,
            }),
    {
        ReportRow {
            size,
            hashmap_default_ms: nanos_to_millis(hashmap_default.1),
            hashmap_identity_ms: nanos_to_millis(hashmap_identity_nanos),
            hashmap_capacity: hashmap_default.0,
            vector_direct_ms: nanos_to_millis(vector_direct_nanos),
            vector_indirect_ms: nanos_to_millis(vector_indirect_nanos),
        }
    }

    /// The row as one line of text, without a line end.
    pub fn render(&self) -> (text: String)
        ensures
            text@ == row_text(*self),
    {
        let mut text: String = String::new();
        push_decimal(&mut text, self.size as u128);
        push_separator(&mut text);
        push_decimal(&mut text, self.hashmap_default_ms);
        push_separator(&mut text);
        push_decimal(&mut text, self.hashmap_identity_ms);
        push_separator(&mut text);
        push_decimal(&mut text, self.hashmap_capacity as u128);
        push_separator(&mut text);
        push_decimal(&mut text, self.vector_direct_ms);
        push_separator(&mut text);
        push_decimal(&mut text, self.vector_indirect_ms);
        assert(text@ =~= row_text(*self));
        text
    }
}

} // verus!
