//! Randomness from the operating system, for fresh keys and for jitter.

use rand::rngs::OsRng;
use rand::RngCore;
use vstd::prelude::*;

verus! {

/// `try_fill_bytes` of rand's `OsRng` on thirty-two bytes: the bytes, or nothing where the
/// operating system fails to give any. Nothing is known of the bytes.
#[verifier::external_body]
fn os_random_bytes() -> Option<[u8; 32]> {
    let mut bytes = [0u8; 32];
    match OsRng.try_fill_bytes(&mut bytes) {
        Ok(()) => Some(bytes),
        Err(_) => None,
    }
}

/// The number that the first eight of `bytes` spell, least significant first.
pub open spec fn le64(bytes: Seq<u8>) -> int {
    bytes[0] as int + 0x100 * (bytes[1] as int + 0x100 * (bytes[2] as int + 0x100 * (bytes[3] as int
        + 0x100 * (bytes[4] as int + 0x100 * (bytes[5] as int + 0x100 * (bytes[6] as int + 0x100
        * bytes[7] as int))))))
}

/// A number from thirty-two bytes of entropy: the first eight, least significant first.
pub fn number_from(bytes: &[u8; 32]) -> (n: u64)
    ensures
        n == le64(bytes@),
{
    let b7: u64 = bytes[7] as u64;
    let b6: u64 = bytes[6] as u64 + 0x100 * b7;
    let b5: u64 = bytes[5] as u64 + 0x100 * b6;
    let b4: u64 = bytes[4] as u64 + 0x100 * b5;
    let b3: u64 = bytes[3] as u64 + 0x100 * b4;
    let b2: u64 = bytes[2] as u64 + 0x100 * b3;
    let b1: u64 = bytes[1] as u64 + 0x100 * b2;
    bytes[0] as u64 + 0x100 * b1
}

/// Thirty-two fresh bytes for a private scalar, or nothing where the operating system has
/// no randomness to give.
pub fn fresh_seed() -> (seed: Option<[u8; 32]>) {
    os_random_bytes()
}

/// A fresh number for jitter, or nothing where the operating system has no randomness to
/// give.
pub fn fresh_number() -> (n: Option<u64>) {
    match os_random_bytes() {
        Some(bytes) => Some(number_from(&bytes)),
        None => None,
    }
}

} // verus!
