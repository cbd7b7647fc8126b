//! The block cipher that the modes are built on: AES-128 as the `aes` crate
//! computes it. Nothing of the cipher is written out here. Its two directions
//! are known to the proofs by name only, and the two functions below that call
//! it are believed, not proved.

use vstd::prelude::*;
use crate::block::BLOCK_SIZE;
use crate::error::CipherError;

verus! {

/// AES-128 takes keys of 16 bytes: as long as its blocks.
pub const KEY_SIZE: usize = 16;

/// The block that AES-128 encrypts `block` to under `key`.
pub uninterp spec fn aes128_encrypt(block: [u8; 16], key: [u8; 16]) -> [u8; 16];

/// The block that AES-128 decrypts `block` to under `key`.
pub uninterp spec fn aes128_decrypt(block: [u8; 16], key: [u8; 16]) -> [u8; 16];

/// Whether decrypting what `p` was encrypted to, under the same key, gives
/// `p` again. The cipher promises it of every block; a proof knows it of the
/// blocks that `aes_decrypt` was called on.
pub open spec fn decrypt_undoes_encrypt(p: [u8; 16], key: [u8; 16]) -> bool {
    aes128_decrypt(aes128_encrypt(p, key), key) == p
}

/// Encrypts one block with AES-128.
///
/// Trusted: calls `Aes128::new` and `BlockEncrypt::encrypt_block` of the `aes`
/// crate. The contract claims only that the block returned depends on the
/// data and the key and on nothing else, by giving it a name.
#[verifier::external_body]
pub(crate) fn aes_encrypt(data: [u8; BLOCK_SIZE], key: &[u8; BLOCK_SIZE]) -> (out: [u8; BLOCK_SIZE])
    ensures
        out == aes128_encrypt(data, *key),
{
    let mut block = aes::cipher::generic_array::GenericArray::from(data);
    let key = aes::cipher::generic_array::GenericArray::from(*key);
    let cipher = <aes::Aes128 as aes::cipher::KeyInit>::new(&key);
    aes::cipher::BlockEncrypt::encrypt_block(&cipher, &mut block);
    block.into()
}

/// Decrypts one block with AES-128.
///
/// Trusted: calls `Aes128::new` and `BlockDecrypt::decrypt_block` of the `aes`
/// crate. The contract names the block returned, and claims that decryption
/// is the inverse of encryption under the same key: if the data is what some
/// block was encrypted to, that block comes back. The crate's documentation
/// shows this of `encrypt_block` followed by `decrypt_block`.
#[verifier::external_body]
pub(crate) fn aes_decrypt(data: [u8; BLOCK_SIZE], key: &[u8; BLOCK_SIZE]) -> (out: [u8; BLOCK_SIZE])
    ensures
        out == aes128_decrypt(data, *key),
        forall|p: [u8; 16]| #[trigger] aes128_encrypt(p, *key) == data ==> out == p,
{
    let mut block = aes::cipher::generic_array::GenericArray::from(data);
    let key = aes::cipher::generic_array::GenericArray::from(*key);
    let cipher = <aes::Aes128 as aes::cipher::KeyInit>::new(&key);
    aes::cipher::BlockDecrypt::decrypt_block(&cipher, &mut block);
    block.into()
}

/// The key that the bytes spell, if they are as many as the cipher takes.
pub fn key_from_slice(bytes: &[u8]) -> (out: Result<[u8; KEY_SIZE], CipherError>)
    ensures
        out is Ok <==> bytes@.len() == 16,
        out matches Ok(key) ==> key@ == bytes@,
        out matches Err(e) ==> e == (CipherError::KeyLengthMismatch {
            expected: 16,
            actual: bytes.len(),
        }),
{
    if bytes.len() != KEY_SIZE {
        return Err(CipherError::KeyLengthMismatch { expected: KEY_SIZE, actual: bytes.len() });
    }
    let mut key: [u8; KEY_SIZE] = [0u8; KEY_SIZE];
    let mut i: usize = 0;
    while i < KEY_SIZE
        invariant
            i <= 16,
            bytes@.len() == 16,
            forall|j: int| 0 <= j < i ==> key@[j] == bytes@[j],
        decreases 16 - i,
    {
        key[i] = bytes[i];
        i += 1;
    }
    assert(key@ =~= bytes@);
    Ok(key)
}

} // verus!
