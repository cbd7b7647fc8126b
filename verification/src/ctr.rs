//! Counter mode: the cipher encrypts a counter, and the message is xored with
//! what comes out. The counter of block `i` is a random 8-byte nonce followed
//! by `i` as eight bytes, highest first. The nonce travels as the first eight
//! bytes of the ciphertext.
//!
//! Decryption runs the cipher in the same direction as encryption does.

use vstd::prelude::*;
use crate::block::{
    block_of, group, grouped, lemma_block_of, lemma_group_ungroup, lemma_ungroup_group,
    lemma_xor_twice, un_group, ungrouped, xor, xored, BLOCK_SIZE,
};
use crate::error::{outcome, CipherError};
use crate::padding::{lemma_padded_len, lemma_unpad_pad, pad, pad_count, padded, un_pad, unpadded};
use crate::primitive::{aes128_encrypt, aes_encrypt};
use crate::random::random_nonce;

verus! {

/// A nonce has 8 bytes: half a block.
pub const NONCE_SIZE: usize = 8;

/// The eight bytes of `x`, highest first.
pub open spec fn be64(x: u64) -> Seq<u8> {
    seq![
        (x / 0x100_0000_0000_0000) as u8,
        (x / 0x1_0000_0000_0000 % 256) as u8,
        (x / 0x100_0000_0000 % 256) as u8,
        (x / 0x1_0000_0000 % 256) as u8,
        (x / 0x100_0000 % 256) as u8,
        (x / 0x1_0000 % 256) as u8,
        (x / 0x100 % 256) as u8,
        (x % 256) as u8,
    ]
}

/// The counter of block `index`: the nonce, then the index.
pub open spec fn counter_block(nonce: Seq<u8>, index: u64) -> [u8; 16] {
    block_of(nonce + be64(index))
}

/// Each of the blocks, xored with the encrypted counter of its place. This
/// one step both encrypts and decrypts.
pub open spec fn ctr_blocks(blocks: Seq<[u8; 16]>, key: [u8; 16], nonce: Seq<u8>) -> Seq<
    [u8; 16],
> {
    Seq::new(
        blocks.len(),
        |i: int| xored(aes128_encrypt(counter_block(nonce, i as u64), key), blocks[i]),
    )
}

/// The CTR ciphertext of the message `m` under the 8-byte nonce `nonce`.
pub open spec fn ctr_encrypted(m: Seq<u8>, key: [u8; 16], nonce: Seq<u8>) -> Seq<u8> {
    nonce + ungrouped(ctr_blocks(grouped(padded(m)), key, nonce))
}

/// What CTR decryption makes of `c`. A ciphertext is refused unless it holds
/// the 8 bytes of a nonce and behind them a whole number of blocks. Removing
/// the padding can fail in its own way, as it does where no block follows the
/// nonce.
pub open spec fn ctr_decrypted(c: Seq<u8>, key: [u8; 16]) -> Result<Seq<u8>, CipherError> {
    if c.len() < 8 || (c.len() - 8) % 16 != 0 {
        Err(CipherError::InvalidLength { minimum: 8, actual: c.len() as usize })
    } else {
        unpadded(ungrouped(ctr_blocks(grouped(c.skip(8)), key, c.take(8))))
    }
}

/// Two indices never have the same eight bytes.
pub proof fn lemma_be64_distinct(x: u64, y: u64)
    requires
        x != y,
    ensures
        be64(x) != be64(y),
{
    if be64(x) == be64(y) {
        assert(forall|k: int| 0 <= k < 8 ==> be64(x)[k] == be64(y)[k]);
        assert(x == y) by (bit_vector)
            requires
                x / 0x100_0000_0000_0000 == y / 0x100_0000_0000_0000,
                x / 0x1_0000_0000_0000 % 256 == y / 0x1_0000_0000_0000 % 256,
                x / 0x100_0000_0000 % 256 == y / 0x100_0000_0000 % 256,
                x / 0x1_0000_0000 % 256 == y / 0x1_0000_0000 % 256,
                x / 0x100_0000 % 256 == y / 0x100_0000 % 256,
                x / 0x1_0000 % 256 == y / 0x1_0000 % 256,
                x / 0x100 % 256 == y / 0x100 % 256,
                x % 256 == y % 256,
        ;
    }
}

/// No counter comes twice under one nonce: two blocks of one message are
/// never xored with the same encrypted counter input.
pub proof fn lemma_counter_blocks_distinct(nonce: Seq<u8>, i: u64, j: u64)
    requires
        nonce.len() == 8,
        i != j,
    ensures
        counter_block(nonce, i) != counter_block(nonce, j),
{
    lemma_be64_distinct(i, j);
    lemma_block_of(nonce + be64(i));
    lemma_block_of(nonce + be64(j));
    assert(be64(i) =~= be64(j) || exists|k: int| 0 <= k < 8 && be64(i)[k] != be64(j)[k]);
    let k = choose|k: int| 0 <= k < 8 && be64(i)[k] != be64(j)[k];
    assert((nonce + be64(i))[8 + k] == be64(i)[k]);
    assert((nonce + be64(j))[8 + k] == be64(j)[k]);
    assert(counter_block(nonce, i)@[8 + k] != counter_block(nonce, j)@[8 + k]);
}

/// The ciphertext is 8 bytes longer than the padded message, and begins with
/// the nonce.
pub proof fn lemma_ctr_encrypted_len(m: Seq<u8>, key: [u8; 16], nonce: Seq<u8>)
    requires
        nonce.len() == 8,
    ensures
        ctr_encrypted(m, key, nonce).len() == 8 + m.len() + pad_count(m.len()),
        (ctr_encrypted(m, key, nonce).len() - 8) % 16 == 0,
        ctr_encrypted(m, key, nonce).len() >= 24,
        ctr_encrypted(m, key, nonce).take(8) == nonce,
        ctr_encrypted(m, key, nonce).skip(8) == ungrouped(
            ctr_blocks(grouped(padded(m)), key, nonce),
        ),
{
    lemma_padded_len(m);
    lemma_ungroup_group(padded(m));
    let c = ctr_encrypted(m, key, nonce);
    assert(c.take(8) =~= nonce);
    assert(c.skip(8) =~= ungrouped(ctr_blocks(grouped(padded(m)), key, nonce)));
}

/// Two nonces never give the same ciphertext, whatever the message and the
/// key.
pub proof fn lemma_ctr_distinct_nonces(m: Seq<u8>, key: [u8; 16], nonce1: Seq<u8>, nonce2: Seq<u8>)
    requires
        nonce1.len() == 8,
        nonce2.len() == 8,
        nonce1 != nonce2,
    ensures
        ctr_encrypted(m, key, nonce1) != ctr_encrypted(m, key, nonce2),
{
    lemma_ctr_encrypted_len(m, key, nonce1);
    lemma_ctr_encrypted_len(m, key, nonce2);
}

/// Decrypting the ciphertext of a message under the key it was encrypted
/// with gives the message, whatever the nonce was.
pub proof fn lemma_ctr_round_trip(m: Seq<u8>, key: [u8; 16], nonce: Seq<u8>)
    requires
        nonce.len() == 8,
    ensures
        ctr_decrypted(ctr_encrypted(m, key, nonce), key) == Ok::<Seq<u8>, CipherError>(m),
{
    let p = grouped(padded(m));
    let c = ctr_encrypted(m, key, nonce);
    let blocks = ctr_blocks(p, key, nonce);
    lemma_ctr_encrypted_len(m, key, nonce);
    lemma_padded_len(m);
    lemma_ungroup_group(padded(m));
    lemma_group_ungroup(blocks);
    assert forall|i: int| 0 <= i < p.len() implies ctr_blocks(blocks, key, nonce)[i] == p[i] by {
        lemma_xor_twice(p[i], aes128_encrypt(counter_block(nonce, i as u64), key));
    }
    assert(ctr_blocks(blocks, key, nonce) =~= p);
    lemma_unpad_pad(m);
}

/// The eight bytes of `x`, highest first.
pub fn be_bytes(x: u64) -> (out: [u8; 8])
    ensures
        out@ == be64(x),
{
    let out: [u8; 8] = [
        (x / 0x100_0000_0000_0000) as u8,
        (x / 0x1_0000_0000_0000 % 256) as u8,
        (x / 0x100_0000_0000 % 256) as u8,
        (x / 0x1_0000_0000 % 256) as u8,
        (x / 0x100_0000 % 256) as u8,
        (x / 0x1_0000 % 256) as u8,
        (x / 0x100 % 256) as u8,
        (x % 256) as u8,
    ];
    assert(out@ =~= be64(x));
    out
}

/// Constructs the counter value (nonce | counter) of the block at `index`.
pub fn make_counter_block(nonce: &[u8; NONCE_SIZE], index: u64) -> (out: [u8; BLOCK_SIZE])
    ensures
        out == counter_block(nonce@, index),
{
    let counter = be_bytes(index);
    let mut block: [u8; BLOCK_SIZE] = [0u8; BLOCK_SIZE];
    let mut j: usize = 0;
    while j < NONCE_SIZE
        invariant
            j <= 8,
            forall|t: int| 0 <= t < j ==> block@[t] == nonce@[t],
            forall|t: int| 0 <= t < j ==> block@[8 + t] == counter@[t],
        decreases 8 - j,
    {
        block[j] = nonce[j];
        block[NONCE_SIZE + j] = counter[j];
        j += 1;
    }
    proof {
        lemma_block_of(nonce@ + be64(index));
        assert(block =~= counter_block(nonce@, index));
    }
    block
}

/// Encrypts the message in CTR mode under the nonce given, which is the first
/// eight bytes of what is returned. A nonce must not be used twice with one
/// key.
pub fn ctr_encrypt_with_nonce(
    plain_text: Vec<u8>,
    key: [u8; BLOCK_SIZE],
    nonce: [u8; NONCE_SIZE],
) -> (out: Vec<u8>)
    ensures
        out@ == ctr_encrypted(plain_text@, key, nonce@),
        out@.len() == 8 + plain_text@.len() + pad_count(plain_text@.len()),
{
    let ghost message = plain_text@;
    // split plain text into 16 bytes blocks
    let blocks = group(pad(plain_text)).unwrap();
    let mut encrypted_blocks: Vec<[u8; BLOCK_SIZE]> = Vec::new();
    let mut i: usize = 0;
    while i < blocks.len()
        invariant
            i <= blocks.len(),
            encrypted_blocks@.len() == i,
            forall|j: int|
                0 <= j < i ==> encrypted_blocks@[j] == xored(
                    aes128_encrypt(counter_block(nonce@, j as u64), key),
                    blocks@[j],
                ),
        decreases blocks.len() - i,
    {
        let counter_block = make_counter_block(&nonce, i as u64);
        // encrypt the constructed value (nonce | counter)
        let encrypted_counter = aes_encrypt(counter_block, &key);
        // XOR the encrypted counter with the corresponding plain text block
        let encrypted_block = xor(encrypted_counter, blocks[i]);
        encrypted_blocks.push(encrypted_block);
        i += 1;
    }
    proof {
        assert(encrypted_blocks@ =~= ctr_blocks(blocks@, key, nonce@));
        lemma_ctr_encrypted_len(message, key, nonce@);
    }
    // concatenate the encrypted blocks and prepend the nonce
    let mut body = un_group(encrypted_blocks);
    let mut cipher_text: Vec<u8> = Vec::new();
    let mut k: usize = 0;
    while k < NONCE_SIZE
        invariant
            k <= 8,
            cipher_text@ == nonce@.take(k as int),
        decreases 8 - k,
    {
        cipher_text.push(nonce[k]);
        k += 1;
    }
    cipher_text.append(&mut body);
    assert(cipher_text@ =~= ctr_encrypted(message, key, nonce@));
    cipher_text
}

/// Encrypts the message in CTR mode under a random nonce, which is the first
/// eight bytes of what is returned. Two calls on one message differ wherever
/// the two nonces drawn do.
pub fn ctr_encrypt(plain_text: Vec<u8>, key: [u8; BLOCK_SIZE]) -> (out: Vec<u8>)
    ensures
        out@ == ctr_encrypted(plain_text@, key, out@.take(8)),
        out@.len() == 8 + plain_text@.len() + pad_count(plain_text@.len()),
{
    let ghost message = plain_text@;
    // Generate random 8 byte nonce
    let mut rng = rand::thread_rng();
    let nonce: [u8; NONCE_SIZE] = random_nonce(&mut rng);
    proof {
        lemma_ctr_encrypted_len(message, key, nonce@);
    }
    ctr_encrypt_with_nonce(plain_text, key, nonce)
}

/// Opposite of `ctr_encrypt`, and of `ctr_encrypt_with_nonce` for every
/// nonce: whatever they made of a message under `key`, this function makes
/// the message of it again.
pub fn ctr_decrypt(cipher_text: Vec<u8>, key: [u8; BLOCK_SIZE]) -> (out: Result<
    Vec<u8>,
    CipherError,
>)
    ensures
        outcome(out) == ctr_decrypted(cipher_text@, key),
        (out matches Err(CipherError::InvalidLength { .. })) <==> (cipher_text@.len() < 8
            || (cipher_text@.len() - 8) % 16 != 0),
        forall|m: Seq<u8>, nonce: Seq<u8>|
            nonce.len() == 8 && cipher_text@ == #[trigger] ctr_encrypted(m, key, nonce)
                ==> (out matches Ok(v) && v@ == m),
{
    let ghost c = cipher_text@;
    proof {
        assert forall|m: Seq<u8>, nonce: Seq<u8>|
            nonce.len() == 8 && c == #[trigger] ctr_encrypted(
                m,
                key,
                nonce,
            ) implies ctr_decrypted(c, key) == Ok::<Seq<u8>, CipherError>(m) by {
            lemma_ctr_round_trip(m, key, nonce);
        }
    }
    let len: usize = cipher_text.len();
    if len < NONCE_SIZE || (len - NONCE_SIZE) % BLOCK_SIZE != 0 {
        return Err(CipherError::InvalidLength { minimum: 8, actual: len });
    }
    // extract the nonce (first 8 bytes)
    let mut nonce: [u8; NONCE_SIZE] = [0u8; NONCE_SIZE];
    let mut k: usize = 0;
    while k < NONCE_SIZE
        invariant
            k <= 8,
            cipher_text@ == c,
            c.len() >= 8,
            forall|t: int| 0 <= t < k ==> nonce@[t] == c[t],
        decreases 8 - k,
    {
        nonce[k] = cipher_text[k];
        k += 1;
    }
    assert(nonce@ =~= c.take(8));
    // split the ciphertext into 16 bytes blocks (excluding the nonce)
    let mut body: Vec<u8> = Vec::new();
    let mut k: usize = NONCE_SIZE;
    while k < len
        invariant
            8 <= k <= len,
            len == c.len(),
            cipher_text@ == c,
            body@ == c.subrange(8, k as int),
        decreases len - k,
    {
        body.push(cipher_text[k]);
        k += 1;
    }
    assert(body@ =~= c.skip(8));
    let blocks = group(body).unwrap();
    // decrypt each block using the counter mode
    let mut decrypted_blocks: Vec<[u8; BLOCK_SIZE]> = Vec::new();
    let mut i: usize = 0;
    while i < blocks.len()
        invariant
            i <= blocks.len(),
            decrypted_blocks@.len() == i,
            forall|j: int|
                0 <= j < i ==> decrypted_blocks@[j] == xored(
                    aes128_encrypt(counter_block(nonce@, j as u64), key),
                    blocks@[j],
                ),
        decreases blocks.len() - i,
    {
        let counter_block = make_counter_block(&nonce, i as u64);
        // both encryption and decryption involve encrypting the counter
        let encrypted_counter = aes_encrypt(counter_block, &key);
        let decrypted_block = xor(encrypted_counter, blocks[i]);
        decrypted_blocks.push(decrypted_block);
        i += 1;
    }
    assert(decrypted_blocks@ =~= ctr_blocks(blocks@, key, nonce@));
    un_pad(un_group(decrypted_blocks))
}

} // verus!
