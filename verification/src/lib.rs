//! Block-cipher modes of operation over AES-128: the padding transform, the
//! grouping of bytes into blocks, and the ECB, CBC and CTR engines built on
//! them.
//!
//! ECB IS NOT SECURE: equal plaintext blocks give equal ciphertext blocks
//! under one key. It is here because the other modes are best understood
//! against it.
//!
//! None of the modes authenticates its ciphertext.

pub mod block;
pub mod cbc;
pub mod ctr;
pub mod ecb;
pub mod error;
pub mod padding;
pub mod primitive;
pub mod random;

pub use block::{group, un_group, xor, BLOCK_SIZE};
pub use cbc::{cbc_decrypt, cbc_encrypt, cbc_encrypt_with_iv};
pub use ctr::{
    be_bytes, ctr_decrypt, ctr_encrypt, ctr_encrypt_with_nonce, make_counter_block, NONCE_SIZE,
};
pub use ecb::{ecb_decrypt, ecb_encrypt};
pub use error::CipherError;
pub use padding::{pad, un_pad};
pub use primitive::{key_from_slice, KEY_SIZE};
pub use random::initialize_random_vector;
