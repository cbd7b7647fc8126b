//! The random source: where initialization vectors and nonces come from.
//!
//! Nothing is promised of a random byte, so nothing here has a contract. The
//! mode engines take what was drawn as an argument (`cbc_encrypt_with_iv`,
//! `ctr_encrypt_with_nonce`) and are proved for every value of it.

use vstd::prelude::*;
use crate::block::BLOCK_SIZE;

verus! {

/// Trusted: the handle of the `rand` crate to the generator of the current
/// thread. Nothing inside it is visible to the proofs.
#[verifier::external_type_specification]
#[verifier::external_body]
pub struct ExThreadRng(rand::rngs::ThreadRng);

/// Trusted: `rand::thread_rng`. Nothing is claimed of the handle it returns.
/// It panics where the operating system gives no entropy to seed the
/// generator with.
pub assume_specification[ rand::thread_rng ]() -> (rng: rand::rngs::ThreadRng);

/// Draws one byte.
///
/// Trusted: calls `Rng::gen` of the `rand` crate. Nothing is claimed of the
/// byte.
#[verifier::external_body]
pub(crate) fn random_byte(rng: &mut rand::rngs::ThreadRng) -> u8 {
    rand::Rng::gen(rng)
}

/// Draws the eight bytes of a nonce.
///
/// Trusted: calls `Rng::gen` of the `rand` crate. Nothing is claimed of the
/// bytes.
#[verifier::external_body]
pub(crate) fn random_nonce(rng: &mut rand::rngs::ThreadRng) -> [u8; 8] {
    rand::Rng::gen(rng)
}

/// A block of random bytes, to start a chain of blocks with.
pub fn initialize_random_vector() -> [u8; BLOCK_SIZE] {
    let mut rng = rand::thread_rng();
    let mut arr: [u8; BLOCK_SIZE] = [0; BLOCK_SIZE];
    let mut i: usize = 0;
    while i < BLOCK_SIZE
        invariant
            i <= 16,
        decreases 16 - i,
    {
        arr[i] = random_byte(&mut rng);
        i += 1;
    }
    arr
}

} // verus!
