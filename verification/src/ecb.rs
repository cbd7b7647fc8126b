//! Electronic Code Book: every block is encrypted by itself under the same
//! key.
//!
//! WARNING: THIS MODE IS NOT SECURE. Equal blocks of plaintext give equal
//! blocks of ciphertext (`lemma_ecb_equal_blocks`), so the ciphertext shows
//! the pattern of the message.

use vstd::prelude::*;
use crate::block::{
    group, grouped, lemma_group_ungroup, lemma_ungroup_group, un_group, ungrouped, BLOCK_SIZE,
};
use crate::error::{outcome, CipherError};
use crate::padding::{lemma_padded_len, lemma_unpad_pad, pad, pad_count, padded, un_pad, unpadded};
use crate::primitive::{
    aes128_decrypt, aes128_encrypt, aes_decrypt, aes_encrypt, decrypt_undoes_encrypt,
};

verus! {

/// Each of the blocks, encrypted by itself.
pub open spec fn encrypted_blocks(blocks: Seq<[u8; 16]>, key: [u8; 16]) -> Seq<[u8; 16]> {
    Seq::new(blocks.len(), |i: int| aes128_encrypt(blocks[i], key))
}

/// Each of the blocks, decrypted by itself.
pub open spec fn decrypted_blocks(blocks: Seq<[u8; 16]>, key: [u8; 16]) -> Seq<[u8; 16]> {
    Seq::new(blocks.len(), |i: int| aes128_decrypt(blocks[i], key))
}

/// The ECB ciphertext of the message `m`: the blocks of the padded message,
/// each encrypted by itself, in their order.
pub open spec fn ecb_encrypted(m: Seq<u8>, key: [u8; 16]) -> Seq<u8> {
    ungrouped(encrypted_blocks(grouped(padded(m)), key))
}

/// What ECB decryption makes of `c`. A ciphertext that is empty or not a
/// whole number of blocks is refused. Otherwise each block is decrypted by
/// itself and the padding removed, which can fail in its own way.
pub open spec fn ecb_decrypted(c: Seq<u8>, key: [u8; 16]) -> Result<Seq<u8>, CipherError> {
    if c.len() == 0 || c.len() % 16 != 0 {
        Err(CipherError::InvalidLength { minimum: 16, actual: c.len() as usize })
    } else {
        unpadded(ungrouped(decrypted_blocks(grouped(c), key)))
    }
}

/// The ciphertext is as long as the padded message, and its blocks are the
/// encrypted blocks of the padded message.
pub proof fn lemma_ecb_encrypted_len(m: Seq<u8>, key: [u8; 16])
    ensures
        ecb_encrypted(m, key).len() == m.len() + pad_count(m.len()),
        ecb_encrypted(m, key).len() % 16 == 0,
        ecb_encrypted(m, key).len() >= 16,
        grouped(ecb_encrypted(m, key)) == encrypted_blocks(grouped(padded(m)), key),
{
    lemma_padded_len(m);
    lemma_ungroup_group(padded(m));
    lemma_group_ungroup(encrypted_blocks(grouped(padded(m)), key));
}

/// Equal blocks of plaintext give equal blocks of ciphertext under one key,
/// wherever they stand, in one message or in two: the weakness of this mode.
pub proof fn lemma_ecb_equal_blocks(m1: Seq<u8>, m2: Seq<u8>, key: [u8; 16], i: int, j: int)
    requires
        0 <= i < grouped(padded(m1)).len(),
        0 <= j < grouped(padded(m2)).len(),
        grouped(padded(m1))[i] == grouped(padded(m2))[j],
    ensures
        grouped(ecb_encrypted(m1, key))[i] == grouped(ecb_encrypted(m2, key))[j],
{
    lemma_ecb_encrypted_len(m1, key);
    lemma_ecb_encrypted_len(m2, key);
}

/// Decrypting the ciphertext of a message under the key it was encrypted
/// with gives the message, wherever decryption undoes encryption on the
/// blocks of the padded message.
pub proof fn lemma_ecb_round_trip(m: Seq<u8>, key: [u8; 16])
    requires
        forall|i: int|
            0 <= i < grouped(padded(m)).len() ==> decrypt_undoes_encrypt(
                #[trigger] grouped(padded(m))[i],
                key,
            ),
    ensures
        ecb_decrypted(ecb_encrypted(m, key), key) == Ok::<Seq<u8>, CipherError>(m),
{
    let p = grouped(padded(m));
    let c = ecb_encrypted(m, key);
    lemma_ecb_encrypted_len(m, key);
    lemma_ungroup_group(padded(m));
    assert(decrypted_blocks(grouped(c), key) =~= p);
    lemma_unpad_pad(m);
}

/// Encrypts the message in ECB mode: pads it, and encrypts each block by
/// itself under `key`.
///
/// Warning: THIS MODE IS NOT SECURE!
pub fn ecb_encrypt(plain_text: Vec<u8>, key: [u8; BLOCK_SIZE]) -> (out: Vec<u8>)
    ensures
        out@ == ecb_encrypted(plain_text@, key),
        out@.len() == plain_text@.len() + pad_count(plain_text@.len()),
{
    let ghost message = plain_text@;
    let blocks = group(pad(plain_text)).unwrap();
    let mut cipher_blocks: Vec<[u8; BLOCK_SIZE]> = Vec::new();
    let mut i: usize = 0;
    while i < blocks.len()
        invariant
            i <= blocks.len(),
            cipher_blocks@.len() == i,
            forall|j: int| 0 <= j < i ==> cipher_blocks@[j] == aes128_encrypt(blocks@[j], key),
        decreases blocks.len() - i,
    {
        let encrypted_block = aes_encrypt(blocks[i], &key);
        cipher_blocks.push(encrypted_block);
        i += 1;
    }
    proof {
        assert(cipher_blocks@ =~= encrypted_blocks(blocks@, key));
        lemma_ecb_encrypted_len(message, key);
    }
    un_group(cipher_blocks)
}

/// Opposite of `ecb_encrypt`: whatever that function made of a message under
/// `key`, this one makes the message of it again.
pub fn ecb_decrypt(cipher_text: Vec<u8>, key: [u8; BLOCK_SIZE]) -> (out: Result<
    Vec<u8>,
    CipherError,
>)
    ensures
        outcome(out) == ecb_decrypted(cipher_text@, key),
        (out matches Err(CipherError::InvalidLength { .. })) <==> (cipher_text@.len() == 0
            || cipher_text@.len() % 16 != 0),
        forall|m: Seq<u8>|
            cipher_text@ == #[trigger] ecb_encrypted(m, key) ==> (out matches Ok(v) && v@ == m),
{
    let ghost c = cipher_text@;
    let len: usize = cipher_text.len();
    if len == 0 || len % BLOCK_SIZE != 0 {
        proof {
            // no ciphertext of any message has such a length
            assert forall|m: Seq<u8>| c == #[trigger] ecb_encrypted(m, key) implies false by {
                lemma_ecb_encrypted_len(m, key);
            }
        }
        return Err(CipherError::InvalidLength { minimum: 16, actual: len });
    }
    let padded_cipher_blocks = group(cipher_text).unwrap();
    let mut plain_text_blocks: Vec<[u8; BLOCK_SIZE]> = Vec::new();
    let mut i: usize = 0;
    while i < padded_cipher_blocks.len()
        invariant
            i <= padded_cipher_blocks.len(),
            plain_text_blocks@.len() == i,
            forall|j: int|
                0 <= j < i ==> plain_text_blocks@[j] == aes128_decrypt(
                    padded_cipher_blocks@[j],
                    key,
                ),
            forall|j: int, p: [u8; 16]|
                #![trigger padded_cipher_blocks@[j], aes128_encrypt(p, key)]
                0 <= j < i && aes128_encrypt(p, key) == padded_cipher_blocks@[j]
                    ==> plain_text_blocks@[j] == p,
        decreases padded_cipher_blocks.len() - i,
    {
        let decrypted_block = aes_decrypt(padded_cipher_blocks[i], &key);
        plain_text_blocks.push(decrypted_block);
        i += 1;
    }
    proof {
        assert(plain_text_blocks@ =~= decrypted_blocks(grouped(c), key));
        assert forall|m: Seq<u8>| c == #[trigger] ecb_encrypted(m, key) implies ecb_decrypted(
            c,
            key,
        ) == Ok::<Seq<u8>, CipherError>(m) by {
            lemma_ecb_encrypted_len(m, key);
            let p = grouped(padded(m));
            assert forall|k: int| 0 <= k < p.len() implies decrypt_undoes_encrypt(
                #[trigger] p[k],
                key,
            ) by {
                assert(padded_cipher_blocks@[k] == aes128_encrypt(p[k], key));
            }
            lemma_ecb_round_trip(m, key);
        }
    }
    let plain_groups_padded = un_group(plain_text_blocks);
    un_pad(plain_groups_padded)
}

} // verus!
