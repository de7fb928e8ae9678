use std::collections::HashMap;
use std::hash::{BuildHasher, BuildHasherDefault, Hasher};
use usizehashmap_benchmark::no_hasher::identity_hash;
use usizehashmap_benchmark::{InvalidUse, NoHasher};

/// The identity hasher plugged into the standard hashing interface: what
/// the hasher refuses aborts.
#[derive(Default)]
struct Plugged(NoHasher);

fn accepted(outcome: Result<(), InvalidUse>) {
    if let Err(error) = outcome {
        panic!("{}", error.message());
    }
}

impl Hasher for Plugged {
    fn write(&mut self, bytes: &[u8]) {
        accepted(self.0.write(bytes))
    }

    fn write_u8(&mut self, n: u8) {
        accepted(self.0.write_u8(n))
    }

    fn write_usize(&mut self, n: usize) {
        accepted(self.0.write_usize(n))
    }

    fn write_u64(&mut self, n: u64) {
        accepted(self.0.write_u64(n))
    }

    fn finish(&self) -> u64 {
        self.0.finish()
    }
}

fn digest_after(write: impl FnOnce(&mut NoHasher) -> Result<(), InvalidUse>) -> u64 {
    let mut hasher = NoHasher::default();
    assert_eq!(write(&mut hasher), Ok(()));
    hasher.finish()
}

#[test]
fn fresh_hasher_has_zero_digest() {
    assert_eq!(NoHasher::default().finish(), 0);
}

#[test]
fn unsigned_integers_hash_to_themselves() {
    assert_eq!(digest_after(|h| h.write_u8(200)), 200);
    assert_eq!(digest_after(|h| h.write_u8(u8::MAX)), 255);
    assert_eq!(digest_after(|h| h.write_u16(65_000)), 65_000);
    assert_eq!(digest_after(|h| h.write_u32(4_000_000_000)), 4_000_000_000);
    assert_eq!(digest_after(|h| h.write_u64(u64::MAX)), u64::MAX);
    assert_eq!(digest_after(|h| h.write_usize(123_456_789)), 123_456_789);
    assert_eq!(digest_after(|h| h.write_usize(usize::MAX)), usize::MAX as u64);
    assert_eq!(digest_after(|h| h.write_u64(0)), 0);
}

#[test]
fn non_negative_signed_integers_hash_to_themselves() {
    assert_eq!(digest_after(|h| h.write_i8(i8::MAX)), 127);
    assert_eq!(digest_after(|h| h.write_i16(12_345)), 12_345);
    assert_eq!(digest_after(|h| h.write_i32(i32::MAX)), 2_147_483_647);
    assert_eq!(digest_after(|h| h.write_i64(i64::MAX)), 9_223_372_036_854_775_807);
    assert_eq!(digest_after(|h| h.write_isize(42)), 42);
}

#[test]
fn negative_signed_integers_hash_to_their_sign_extension() {
    assert_eq!(digest_after(|h| h.write_i8(-1)), u64::MAX);
    assert_eq!(digest_after(|h| h.write_i8(i8::MIN)), 0xFFFF_FFFF_FFFF_FF80);
    assert_eq!(digest_after(|h| h.write_i16(-2)), 0xFFFF_FFFF_FFFF_FFFE);
    assert_eq!(digest_after(|h| h.write_i32(i32::MIN)), 0xFFFF_FFFF_8000_0000);
    assert_eq!(digest_after(|h| h.write_i64(i64::MIN)), 0x8000_0000_0000_0000);
    assert_eq!(digest_after(|h| h.write_i64(-1)), u64::MAX);
    assert_eq!(digest_after(|h| h.write_isize(-3)), 0xFFFF_FFFF_FFFF_FFFD);
}

#[test]
fn a_second_integer_is_refused() {
    let mut hasher = NoHasher::default();
    assert_eq!(hasher.write_u8(1), Ok(()));
    assert_eq!(hasher.write_u8(2), Err(InvalidUse));
    assert_eq!(hasher.finish(), 1);
}

#[test]
fn a_second_integer_of_any_width_is_refused() {
    let mut hasher = NoHasher::default();
    assert_eq!(hasher.write_u32(7), Ok(()));
    assert_eq!(hasher.write_u8(9), Err(InvalidUse));
    assert_eq!(hasher.write_u16(9), Err(InvalidUse));
    assert_eq!(hasher.write_u32(9), Err(InvalidUse));
    assert_eq!(hasher.write_u64(9), Err(InvalidUse));
    assert_eq!(hasher.write_usize(9), Err(InvalidUse));
    assert_eq!(hasher.write_i8(-9), Err(InvalidUse));
    assert_eq!(hasher.write_i16(-9), Err(InvalidUse));
    assert_eq!(hasher.write_i32(-9), Err(InvalidUse));
    assert_eq!(hasher.write_i64(-9), Err(InvalidUse));
    assert_eq!(hasher.write_isize(-9), Err(InvalidUse));
    assert_eq!(hasher.finish(), 7);
    assert_eq!(hasher.finish(), 7);
}

#[test]
fn a_second_zero_is_refused_too() {
    let mut hasher = NoHasher::default();
    assert_eq!(hasher.write_u64(0), Ok(()));
    assert_eq!(hasher.finish(), 0);
    assert_eq!(hasher.write_u64(0), Err(InvalidUse));
}

#[test]
fn a_byte_string_is_rejected() {
    let mut hasher = NoHasher::default();
    assert_eq!(hasher.write(&[1, 2, 3]), Err(InvalidUse));
    assert_eq!(hasher.write(&[]), Err(InvalidUse));
    assert_eq!(hasher.write(&[9]), Err(InvalidUse));
}

#[test]
fn a_rejected_byte_string_leaves_the_hasher() {
    let mut hasher = NoHasher::default();
    assert!(hasher.write(&[1, 2, 3, 4, 5, 6, 7, 8]).is_err());
    assert_eq!(hasher.finish(), 0);
    assert_eq!(hasher.write_u64(77), Ok(()));
    assert!(hasher.write(&[1, 2, 3, 4, 5, 6, 7, 8]).is_err());
    assert_eq!(hasher.finish(), 77);
}

#[test]
fn invalid_use_names_the_misuse() {
    assert_eq!(InvalidUse.message(), "Invalid use of NoHashHasher");
}

#[test]
fn identity_hash_returns_the_key() {
    assert_eq!(identity_hash(0), 0);
    assert_eq!(identity_hash(1024), 1024);
    assert_eq!(identity_hash(usize::MAX), usize::MAX as u64);
}

#[test]
fn plugged_hasher_hashes_a_word_to_itself() {
    let builder: BuildHasherDefault<Plugged> = BuildHasherDefault::default();
    assert_eq!(builder.hash_one(5usize), 5);
    assert_eq!(builder.hash_one(usize::MAX), usize::MAX as u64);
    assert_eq!(builder.hash_one(91u64), 91);
}

#[test]
fn plugged_hasher_serves_a_hash_map() {
    let mut map: HashMap<usize, usize, BuildHasherDefault<Plugged>> = HashMap::default();
    for key in 0..1000usize {
        map.insert(key * 7919, key);
    }
    assert_eq!(map.len(), 1000);
    for key in 0..1000usize {
        assert_eq!(map[&(key * 7919)], key);
    }
    assert!(map.capacity() >= 1000);
}
