//! Cipher Block Chaining: each block of plaintext is xored with the block of
//! ciphertext before it, and then encrypted. The first block has none before
//! it and takes a random block instead, the initialization vector, which
//! travels as the first block of the ciphertext.

use vstd::prelude::*;
use crate::block::{
    block_at, group, grouped, lemma_group_ungroup, lemma_ungroup_group, lemma_xor_twice, un_group,
    ungrouped, xor, xored, BLOCK_SIZE,
};
use crate::error::{outcome, CipherError};
use crate::padding::{lemma_padded_len, lemma_unpad_pad, pad, pad_count, padded, un_pad, unpadded};
use crate::primitive::{
    aes128_decrypt, aes128_encrypt, aes_decrypt, aes_encrypt, decrypt_undoes_encrypt,
};
use crate::random::initialize_random_vector;

verus! {

/// The block that block `n` of the plaintext is xored with: the
/// initialization vector for the first, and for each other the block of
/// ciphertext before it.
pub open spec fn cbc_chain(p: Seq<[u8; 16]>, key: [u8; 16], iv: [u8; 16], n: nat) -> [u8; 16]
    decreases n,
{
    if n == 0 {
        iv
    } else {
        aes128_encrypt(xored(cbc_chain(p, key, iv, (n - 1) as nat), p[n - 1]), key)
    }
}

/// What the cipher is given for block `n` of the plaintext: the block xored
/// with what the chain holds for it.
pub open spec fn cbc_cipher_input(
    p: Seq<[u8; 16]>,
    key: [u8; 16],
    iv: [u8; 16],
    n: nat,
) -> [u8; 16] {
    xored(cbc_chain(p, key, iv, n), p[n as int])
}

/// The blocks of a CBC ciphertext: the initialization vector, then one block
/// for each block of plaintext.
pub open spec fn cbc_blocks(p: Seq<[u8; 16]>, key: [u8; 16], iv: [u8; 16]) -> Seq<[u8; 16]> {
    Seq::new(p.len() + 1, |i: int| cbc_chain(p, key, iv, i as nat))
}

/// The CBC ciphertext of the message `m` under the initialization vector
/// `iv`.
pub open spec fn cbc_encrypted(m: Seq<u8>, key: [u8; 16], iv: [u8; 16]) -> Seq<u8> {
    ungrouped(cbc_blocks(grouped(padded(m)), key, iv))
}

/// The plaintext blocks that the ciphertext blocks `c` stand for: each block
/// but the first, decrypted and xored with the block before it.
pub open spec fn cbc_plain_blocks(c: Seq<[u8; 16]>, key: [u8; 16]) -> Seq<[u8; 16]> {
    Seq::new((c.len() - 1) as nat, |i: int| xored(aes128_decrypt(c[i + 1], key), c[i]))
}

/// What CBC decryption makes of `c`. A ciphertext is refused unless it is a
/// whole number of blocks and at least two: the initialization vector and one
/// block of padded message. Removing the padding can fail in its own way.
pub open spec fn cbc_decrypted(c: Seq<u8>, key: [u8; 16]) -> Result<Seq<u8>, CipherError> {
    if c.len() < 32 || c.len() % 16 != 0 {
        Err(CipherError::InvalidLength { minimum: 32, actual: c.len() as usize })
    } else {
        unpadded(ungrouped(cbc_plain_blocks(grouped(c), key)))
    }
}

/// The ciphertext is one block longer than the padded message, and begins
/// with the initialization vector.
pub proof fn lemma_cbc_encrypted_len(m: Seq<u8>, key: [u8; 16], iv: [u8; 16])
    ensures
        cbc_encrypted(m, key, iv).len() == 16 + m.len() + pad_count(m.len()),
        cbc_encrypted(m, key, iv).len() % 16 == 0,
        cbc_encrypted(m, key, iv).len() >= 32,
        grouped(cbc_encrypted(m, key, iv)) == cbc_blocks(grouped(padded(m)), key, iv),
        block_at(cbc_encrypted(m, key, iv), 0) == iv,
{
    lemma_padded_len(m);
    lemma_ungroup_group(padded(m));
    let blocks = cbc_blocks(grouped(padded(m)), key, iv);
    lemma_group_ungroup(blocks);
    assert(grouped(cbc_encrypted(m, key, iv))[0] == blocks[0]);
}

/// Two initialization vectors never give the same ciphertext, whatever the
/// message and the key.
pub proof fn lemma_cbc_distinct_ivs(m: Seq<u8>, key: [u8; 16], iv1: [u8; 16], iv2: [u8; 16])
    requires
        iv1 != iv2,
    ensures
        cbc_encrypted(m, key, iv1) != cbc_encrypted(m, key, iv2),
{
    lemma_cbc_encrypted_len(m, key, iv1);
    lemma_cbc_encrypted_len(m, key, iv2);
}

/// Decrypting the ciphertext of a message under the key it was encrypted
/// with gives the message, whatever the initialization vector was, wherever
/// decryption undoes encryption on the blocks that the cipher was given.
pub proof fn lemma_cbc_round_trip(m: Seq<u8>, key: [u8; 16], iv: [u8; 16])
    requires
        forall|i: int|
            0 <= i < grouped(padded(m)).len() ==> decrypt_undoes_encrypt(
                #[trigger] cbc_cipher_input(grouped(padded(m)), key, iv, i as nat),
                key,
            ),
    ensures
        cbc_decrypted(cbc_encrypted(m, key, iv), key) == Ok::<Seq<u8>, CipherError>(m),
{
    let p = grouped(padded(m));
    let c = cbc_encrypted(m, key, iv);
    lemma_cbc_encrypted_len(m, key, iv);
    lemma_padded_len(m);
    lemma_ungroup_group(padded(m));
    let blocks = grouped(c);
    assert forall|i: int| 0 <= i < p.len() implies cbc_plain_blocks(blocks, key)[i] == p[i] by {
        let chain = cbc_chain(p, key, iv, i as nat);
        let input = cbc_cipher_input(p, key, iv, i as nat);
        assert(blocks[i] == chain);
        assert(blocks[i + 1] == cbc_chain(p, key, iv, (i + 1) as nat));
        assert(blocks[i + 1] == aes128_encrypt(input, key));
        assert(decrypt_undoes_encrypt(input, key));
        lemma_xor_twice(p[i], chain);
    }
    assert(cbc_plain_blocks(blocks, key) =~= p);
    lemma_unpad_pad(m);
}

/// Encrypts the message in CBC mode under the initialization vector given,
/// which is the first block of what is returned.
pub fn cbc_encrypt_with_iv(
    plain_text: Vec<u8>,
    key: [u8; BLOCK_SIZE],
    initial_vector: [u8; BLOCK_SIZE],
) -> (out: Vec<u8>)
    ensures
        out@ == cbc_encrypted(plain_text@, key, initial_vector),
        out@.len() == 16 + plain_text@.len() + pad_count(plain_text@.len()),
{
    let ghost message = plain_text@;
    let blocks = group(pad(plain_text)).unwrap();
    let mut cipher_blocks: Vec<[u8; BLOCK_SIZE]> = Vec::new();
    cipher_blocks.push(initial_vector);
    let mut i: usize = 0;
    let mut xor_input = initial_vector;
    while i < blocks.len()
        invariant
            i <= blocks.len(),
            cipher_blocks@.len() == i + 1,
            xor_input == cbc_chain(blocks@, key, initial_vector, i as nat),
            forall|j: int|
                0 <= j <= i ==> cipher_blocks@[j] == cbc_chain(
                    blocks@,
                    key,
                    initial_vector,
                    j as nat,
                ),
        decreases blocks.len() - i,
    {
        let block = blocks[i];
        let result_xor = xor(xor_input, block);
        let cipher_out = aes_encrypt(result_xor, &key);
        cipher_blocks.push(cipher_out);
        xor_input = cipher_out;
        i += 1;
    }
    proof {
        assert(cipher_blocks@ =~= cbc_blocks(blocks@, key, initial_vector));
        lemma_cbc_encrypted_len(message, key, initial_vector);
    }
    un_group(cipher_blocks)
}

/// Encrypts the message in CBC mode under a random initialization vector,
/// which is the first block of what is returned. Two calls on one message
/// differ wherever the two vectors drawn do.
pub fn cbc_encrypt(plain_text: Vec<u8>, key: [u8; BLOCK_SIZE]) -> (out: Vec<u8>)
    ensures
        out@ == cbc_encrypted(plain_text@, key, block_at(out@, 0)),
        out@.len() == 16 + plain_text@.len() + pad_count(plain_text@.len()),
{
    let ghost message = plain_text@;
    let initial_vector = initialize_random_vector();
    proof {
        lemma_cbc_encrypted_len(message, key, initial_vector);
    }
    cbc_encrypt_with_iv(plain_text, key, initial_vector)
}

/// Opposite of `cbc_encrypt`, and of `cbc_encrypt_with_iv` for every
/// initialization vector: whatever they made of a message under `key`, this
/// function makes the message of it again.
pub fn cbc_decrypt(cipher_text: Vec<u8>, key: [u8; BLOCK_SIZE]) -> (out: Result<
    Vec<u8>,
    CipherError,
>)
    ensures
        outcome(out) == cbc_decrypted(cipher_text@, key),
        (out matches Err(CipherError::InvalidLength { .. })) <==> (cipher_text@.len() < 32
            || cipher_text@.len() % 16 != 0),
        forall|m: Seq<u8>, iv: [u8; 16]|
            cipher_text@ == #[trigger] cbc_encrypted(m, key, iv) ==> (out matches Ok(v) && v@
                == m),
{
    let ghost c = cipher_text@;
    let len: usize = cipher_text.len();
    if len < 2 * BLOCK_SIZE || len % BLOCK_SIZE != 0 {
        proof {
            // no ciphertext of any message has such a length
            assert forall|m: Seq<u8>, iv: [u8; 16]| c == #[trigger] cbc_encrypted(
                m,
                key,
                iv,
            ) implies false by {
                lemma_cbc_encrypted_len(m, key, iv);
            }
        }
        return Err(CipherError::InvalidLength { minimum: 32, actual: len });
    }
    let cipher_blocks = group(cipher_text).unwrap();
    let mut plain_text: Vec<[u8; BLOCK_SIZE]> = Vec::new();
    let mut i: usize = 1;
    while i < cipher_blocks.len()
        invariant
            1 <= i <= cipher_blocks.len(),
            plain_text@.len() == i - 1,
            forall|j: int|
                0 <= j < i - 1 ==> plain_text@[j] == xored(
                    aes128_decrypt(cipher_blocks@[j + 1], key),
                    cipher_blocks@[j],
                ),
            forall|j: int, p: [u8; 16]|
                #![trigger cipher_blocks@[j], aes128_encrypt(p, key)]
                1 <= j < i && aes128_encrypt(p, key) == cipher_blocks@[j] ==> aes128_decrypt(
                    cipher_blocks@[j],
                    key,
                ) == p,
        decreases cipher_blocks.len() - i,
    {
        let cipher_block = cipher_blocks[i];
        let previous_cipher_block = cipher_blocks[i - 1];
        let decrypted_result = aes_decrypt(cipher_block, &key);
        let plain_text_chunk = xor(decrypted_result, previous_cipher_block);
        plain_text.push(plain_text_chunk);
        i += 1;
    }
    proof {
        assert(plain_text@ =~= cbc_plain_blocks(grouped(c), key));
        assert forall|m: Seq<u8>, iv: [u8; 16]| c == #[trigger] cbc_encrypted(
            m,
            key,
            iv,
        ) implies cbc_decrypted(c, key) == Ok::<Seq<u8>, CipherError>(m) by {
            lemma_cbc_encrypted_len(m, key, iv);
            let p = grouped(padded(m));
            assert forall|k: int| 0 <= k < p.len() implies decrypt_undoes_encrypt(
                #[trigger] cbc_cipher_input(p, key, iv, k as nat),
                key,
            ) by {
                let input = cbc_cipher_input(p, key, iv, k as nat);
                assert(cipher_blocks@[k + 1] == cbc_chain(p, key, iv, (k + 1) as nat));
                assert(cipher_blocks@[k + 1] == aes128_encrypt(input, key));
            }
            lemma_cbc_round_trip(m, key, iv);
        }
    }
    un_pad(un_group(plain_text))
}

} // verus!
