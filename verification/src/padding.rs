//! The padding transform: every message is extended to a whole number of
//! blocks by `p` bytes of value `p`, with `1 <= p <= 16`, so that the last
//! byte always tells how many bytes to take away again.
//!
//! A message that is already a whole number of blocks gets a whole block of
//! padding. Without it nobody could tell a trailing byte of the message from a
//! marker.

use vstd::prelude::*;
use crate::block::BLOCK_SIZE;
use crate::error::{outcome, CipherError};

verus! {

/// How many bytes are appended to a message of `len` bytes.
pub open spec fn pad_count(len: nat) -> nat {
    (16 - len % 16) as nat
}

/// The message followed by its padding: `pad_count` bytes, each of them
/// holding that count.
pub open spec fn padded(m: Seq<u8>) -> Seq<u8> {
    m + Seq::new(pad_count(m.len()), |i: int| pad_count(m.len()) as u8)
}

/// Whether the last byte of `s` can be the marker of a padding that `s` holds:
/// it is at least 1, at most a block, and at most the length of `s`.
pub open spec fn has_marker(s: Seq<u8>) -> bool {
    s.len() > 0 && 1 <= s.last() <= 16 && s.last() <= s.len()
}

/// What removing the padding gives: `s` without as many bytes at its end as
/// its last byte says, or the refusal of a marker that cannot be one. Only
/// the last byte is looked at; the bytes before it may hold anything.
pub open spec fn unpadded(s: Seq<u8>) -> Result<Seq<u8>, CipherError> {
    if has_marker(s) {
        Ok(s.take(s.len() - s.last()))
    } else {
        Err(
            CipherError::MalformedPadding {
                marker: if s.len() == 0 { 0 } else { s.last() },
                len: s.len() as usize,
            },
        )
    }
}

/// A padded message is longer than the message by between one byte and one
/// block, is a whole and positive number of blocks, and ends in its marker.
pub proof fn lemma_padded_len(m: Seq<u8>)
    ensures
        1 <= pad_count(m.len()) <= 16,
        padded(m).len() == m.len() + pad_count(m.len()),
        padded(m).len() % 16 == 0,
        padded(m).len() >= 16,
        padded(m).last() == pad_count(m.len()),
        has_marker(padded(m)),
{
}

/// Removing the padding of a padded message gives the message.
pub proof fn lemma_unpad_pad(m: Seq<u8>)
    ensures
        unpadded(padded(m)) == Ok::<Seq<u8>, CipherError>(m),
{
    lemma_padded_len(m);
    let p = padded(m);
    assert(p.take(p.len() - p.last()) =~= m);
}

/// Extends the data to a whole number of blocks. If the data is not a multiple
/// of the block length, the number of missing bytes is written into each of
/// them. If it is, a whole block is added, each byte holding the block length:
/// `[16, 16, 16, 16, 16, 16, 16, 16, 16, 16, 16, 16, 16, 16, 16, 16]`.
pub fn pad(data: Vec<u8>) -> (out: Vec<u8>)
    ensures
        out@ == padded(data@),
        1 <= out@.len() - data@.len() <= 16,
        out@.len() % 16 == 0,
{
    let mut data = data;
    let ghost message = data@;
    // When we have a multiple the second term is 0
    let number_pad_bytes: usize = BLOCK_SIZE - data.len() % BLOCK_SIZE;
    let mut k: usize = 0;
    while k < number_pad_bytes
        invariant
            k <= number_pad_bytes,
            number_pad_bytes == pad_count(message.len()),
            data@ == message + Seq::new(k as nat, |i: int| number_pad_bytes as u8),
        decreases number_pad_bytes - k,
    {
        data.push(number_pad_bytes as u8);
        k += 1;
    }
    proof {
        lemma_padded_len(message);
    }
    data
}

/// Does the opposite of the pad function: looks at the last byte and removes
/// that number of bytes.
pub fn un_pad(data: Vec<u8>) -> (out: Result<Vec<u8>, CipherError>)
    ensures
        outcome(out) == unpadded(data@),
        out is Ok <==> has_marker(data@),
{
    let mut data = data;
    let len: usize = data.len();
    if len == 0 {
        return Err(CipherError::MalformedPadding { marker: 0, len: 0 });
    }
    let marker: u8 = data[len - 1];
    let n_to_remove: usize = marker as usize;
    if marker == 0 || n_to_remove > BLOCK_SIZE || n_to_remove > len {
        return Err(CipherError::MalformedPadding { marker, len });
    }
    data.truncate(len - n_to_remove);
    Ok(data)
}

} // verus!
