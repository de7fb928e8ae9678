//! A hash strategy that does no mixing: the digest is the integer that was
//! written, reinterpreted as a `u64`.
//!
//! It is meant for keys that are a single fixed-width integer. Feeding it a
//! byte string, or a second integer as a key of several fields would, is a
//! misuse and is rejected with [`InvalidUse`].

use vstd::prelude::*;

verus! {

/// The error of feeding an identity hasher anything but one fixed-width
/// integer.
#[derive(Debug, Clone, Copy, PartialEq, Eq, Structural)]
pub struct InvalidUse;

impl InvalidUse {
    /// The diagnostic that goes with this error.
    pub fn message(&self) -> (text: &'static str)
        ensures
            text@ == "Invalid use of NoHashHasher"@,
    {
        "Invalid use of NoHashHasher"
    }
}

/// The value a signed integer takes when its two's complement bit pattern is
/// sign-extended to 64 bits and read as unsigned.
pub open spec fn sign_extended(n: int) -> u64
    recommends
        i64::MIN <= n <= i64::MAX,
{
    if n >= 0 {
        n as u64
    } else {
        (n + 0x1_0000_0000_0000_0000) as u64
    }
}

/// An identity hasher. It takes one integer, and its digest is that
/// integer.
pub struct NoHasher {
    digest: u64,
    written: bool,
}

impl View for NoHasher {
    type V = u64;

    /// The digest that `finish` would return now.
    closed spec fn view(&self) -> u64 {
        self.digest
    }
}

impl Default for NoHasher {
    /// A hasher that has been given nothing yet. Its digest is zero.
    fn default() -> (hasher: Self)
        ensures
            hasher@ == 0,
            !hasher.written(),
    {
        NoHasher { digest: 0, written: false }
    }
}

impl NoHasher {
    /// Whether this hasher has taken its integer.
    pub closed spec fn written(&self) -> bool {
        self.written
    }

    /// Rejects a byte string: this hasher only takes whole integers. The
    /// hasher is left as it was.
    pub fn write(&mut self, bytes: &[u8]) -> (outcome: Result<(), InvalidUse>)
        ensures
            outcome == Err::<(), InvalidUse>(InvalidUse),
            *final(self) == *old(self),
    {
        Err(InvalidUse)
    }

    /// Takes an 8-bit unsigned integer as the one integer of this hasher: the
    /// digest becomes that integer. A hasher that has taken its integer
    /// refuses another and stays as it was.
    pub fn write_u8(&mut self, n: u8) -> (outcome: Result<(), InvalidUse>)
        ensures
            old(self).written() ==> outcome == Err::<(), InvalidUse>(InvalidUse) && *final(self)
                == *old(self),
            !old(self).written() ==> outcome == Ok::<(), InvalidUse>(()) && final(self)@ == n
                && final(self).written(),
    {
        if self.written {
            return Err(InvalidUse);
        }
        self.digest = n as u64;
        self.written = true;
        Ok(())
    }

    /// Takes a 16-bit unsigned integer as the one integer of this hasher: the
    /// digest becomes that integer. A hasher that has taken its integer
    /// refuses another and stays as it was.
    pub fn write_u16(&mut self, n: u16) -> (outcome: Result<(), InvalidUse>)
        ensures
            old(self).written() ==> outcome == Err::<(), InvalidUse>(InvalidUse) && *final(self)
                == *old(self),
            !old(self).written() ==> outcome == Ok::<(), InvalidUse>(()) && final(self)@ == n
                && final(self).written(),
    {
        if self.written {
            return Err(InvalidUse);
        }
        self.digest = n as u64;
        self.written = true;
        Ok(())
    }

    /// Takes a 32-bit unsigned integer as the one integer of this hasher: the
    /// digest becomes that integer. A hasher that has taken its integer
    /// refuses another and stays as it was.
    pub fn write_u32(&mut self, n: u32) -> (outcome: Result<(), InvalidUse>)
        ensures
            old(self).written() ==> outcome == Err::<(), InvalidUse>(InvalidUse) && *final(self)
                == *old(self),
            !old(self).written() ==> outcome == Ok::<(), InvalidUse>(()) && final(self)@ == n
                && final(self).written(),
    {
        if self.written {
            return Err(InvalidUse);
        }
        self.digest = n as u64;
        self.written = true;
        Ok(())
    }

    /// Takes a 64-bit unsigned integer as the one integer of this hasher: the
    /// digest becomes that integer. A hasher that has taken its integer
    /// refuses another and stays as it was.
    pub fn write_u64(&mut self, n: u64) -> (outcome: Result<(), InvalidUse>)
        ensures
            old(self).written() ==> outcome == Err::<(), InvalidUse>(InvalidUse) && *final(self)
                == *old(self),
            !old(self).written() ==> outcome == Ok::<(), InvalidUse>(()) && final(self)@ == n
                && final(self).written(),
    {
        if self.written {
            return Err(InvalidUse);
        }
        self.digest = n;
        self.written = true;
        Ok(())
    }

    /// Takes a word-sized unsigned integer as the one integer of this hasher: the
    /// digest becomes that integer. A hasher that has taken its integer
    /// refuses another and stays as it was.
    pub fn write_usize(&mut self, n: usize) -> (outcome: Result<(), InvalidUse>)
        ensures
            old(self).written() ==> outcome == Err::<(), InvalidUse>(InvalidUse) && *final(self)
                == *old(self),
            !old(self).written() ==> outcome == Ok::<(), InvalidUse>(()) && final(self)@ == n
                && final(self).written(),
    {
        if self.written {
            return Err(InvalidUse);
        }
        self.digest = n as u64;
        self.written = true;
        Ok(())
    }

    /// Takes an 8-bit signed integer as the one integer of this hasher: the
    /// digest becomes its sign extension to 64 bits. A hasher that has
    /// taken its integer refuses another and stays as it was.
    pub fn write_i8(&mut self, n: i8) -> (outcome: Result<(), InvalidUse>)
        ensures
            old(self).written() ==> outcome == Err::<(), InvalidUse>(InvalidUse) && *final(self)
                == *old(self),
            !old(self).written() ==> outcome == Ok::<(), InvalidUse>(()) && final(self)@
                == sign_extended(n as int) && final(self).written(),
    {
        if self.written {
            return Err(InvalidUse);
        }
        assert(n as u64 == sign_extended(n as int)) by (bit_vector);
        self.digest = #[verifier::truncate]
        (n as u64);
        self.written = true;
        Ok(())
    }

    /// Takes a 16-bit signed integer as the one integer of this hasher: the
    /// digest becomes its sign extension to 64 bits. A hasher that has
    /// taken its integer refuses another and stays as it was.
    pub fn write_i16(&mut self, n: i16) -> (outcome: Result<(), InvalidUse>)
        ensures
            old(self).written() ==> outcome == Err::<(), InvalidUse>(InvalidUse) && *final(self)
                == *old(self),
            !old(self).written() ==> outcome == Ok::<(), InvalidUse>(()) && final(self)@
                == sign_extended(n as int) && final(self).written(),
    {
        if self.written {
            return Err(InvalidUse);
        }
        assert(n as u64 == sign_extended(n as int)) by (bit_vector);
        self.digest = #[verifier::truncate]
        (n as u64);
        self.written = true;
        Ok(())
    }

    /// Takes a 32-bit signed integer as the one integer of this hasher: the
    /// digest becomes its sign extension to 64 bits. A hasher that has
    /// taken its integer refuses another and stays as it was.
    pub fn write_i32(&mut self, n: i32) -> (outcome: Result<(), InvalidUse>)
        ensures
            old(self).written() ==> outcome == Err::<(), InvalidUse>(InvalidUse) && *final(self)
                == *old(self),
            !old(self).written() ==> outcome == Ok::<(), InvalidUse>(()) && final(self)@
                == sign_extended(n as int) && final(self).written(),
    {
        if self.written {
            return Err(InvalidUse);
        }
        assert(n as u64 == sign_extended(n as int)) by (bit_vector);
        self.digest = #[verifier::truncate]
        (n as u64);
        self.written = true;
        Ok(())
    }

    /// Takes a 64-bit signed integer as the one integer of this hasher: the
    /// digest becomes its sign extension to 64 bits. A hasher that has
    /// taken its integer refuses another and stays as it was.
    pub fn write_i64(&mut self, n: i64) -> (outcome: Result<(), InvalidUse>)
        ensures
            old(self).written() ==> outcome == Err::<(), InvalidUse>(InvalidUse) && *final(self)
                == *old(self),
            !old(self).written() ==> outcome == Ok::<(), InvalidUse>(()) && final(self)@
                == sign_extended(n as int) && final(self).written(),
    {
        if self.written {
            return Err(InvalidUse);
        }
        assert(n as u64 == sign_extended(n as int)) by (bit_vector);
        self.digest = #[verifier::truncate]
        (n as u64);
        self.written = true;
        Ok(())
    }

    /// Takes a word-sized signed integer as the one integer of this hasher: the
    /// digest becomes its sign extension to 64 bits. A hasher that has
    /// taken its integer refuses another and stays as it was.
    pub fn write_isize(&mut self, n: isize) -> (outcome: Result<(), InvalidUse>)
        ensures
            old(self).written() ==> outcome == Err::<(), InvalidUse>(InvalidUse) && *final(self)
                == *old(self),
            !old(self).written() ==> outcome == Ok::<(), InvalidUse>(()) && final(self)@
                == sign_extended(n as int) && final(self).written(),
    {
        if self.written {
            return Err(InvalidUse);
        }
        assert(n as u64 == sign_extended(n as int)) by (bit_vector);
        self.digest = #[verifier::truncate]
        (n as u64);
        self.written = true;
        Ok(())
    }

    /// The digest: the integer this hasher took, or zero if it took none.
    pub fn finish(&self) -> (digest: u64)
        ensures
            digest == self@,
    {
        self.digest
    }
}

/// The digest of a word-sized key under the identity strategy, as a hash map
/// obtains it: a fresh hasher, one write of the key, then the digest. It is
/// the key itself.
pub fn identity_hash(key: usize) -> (digest: u64)
    ensures
        digest == key,
{
    let mut hasher = NoHasher::default();
    let outcome = hasher.write_usize(key);
    assert(outcome is Ok);
    hasher.finish()
}

/// A non-negative integer hashes to itself, whatever its width.
pub proof fn lemma_sign_extended_identity(n: int)
    requires
        0 <= n <= u64::MAX,
    ensures
        sign_extended(n) == n,
{
}

/// A negative integer hashes to its two's complement image: distinct
/// negative inputs keep distinct digests, all above every non-negative
/// signed input.
pub proof fn lemma_sign_extended_negative(n: int)
    requires
        i64::MIN <= n < 0,
    ensures
        sign_extended(n) == n + 0x1_0000_0000_0000_0000,
        sign_extended(n) > i64::MAX,
{
}

/// The identity hash never maps two different integers of the supported
/// range to one digest.
pub proof fn lemma_sign_extended_injective(a: int, b: int)
    requires
        i64::MIN <= a <= i64::MAX,
        i64::MIN <= b <= i64::MAX,
        sign_extended(a) == sign_extended(b),
    ensures
        a == b,
{
}

} // verus!
