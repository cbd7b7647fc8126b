use cipher_modes::{
    be_bytes, ctr_decrypt, ctr_encrypt, ctr_encrypt_with_nonce, make_counter_block, CipherError,
    NONCE_SIZE,
};

fn ctr_hex(text: &str) -> Vec<u8> {
    let digits: Vec<u8> = text.bytes().map(|c| (c as char).to_digit(16).unwrap() as u8).collect();
    digits.chunks(2).map(|pair| pair[0] * 16 + pair[1]).collect()
}

#[test]
fn nonce_is_eight_bytes() {
    assert_eq!(NONCE_SIZE, 8);
}

#[test]
fn be_bytes_puts_the_highest_byte_first() {
    assert_eq!(be_bytes(0), [0, 0, 0, 0, 0, 0, 0, 0]);
    assert_eq!(be_bytes(1), [0, 0, 0, 0, 0, 0, 0, 1]);
    assert_eq!(be_bytes(255), [0, 0, 0, 0, 0, 0, 0, 255]);
    assert_eq!(be_bytes(256), [0, 0, 0, 0, 0, 0, 1, 0]);
    assert_eq!(be_bytes(0x0102030405060708), [1, 2, 3, 4, 5, 6, 7, 8]);
    assert_eq!(be_bytes(u64::MAX), [255; 8]);
    assert_eq!(be_bytes(0xfedcba9876543210), 0xfedcba9876543210u64.to_be_bytes());
}

#[test]
fn counter_block_is_nonce_then_index() {
    let nonce = [0xa0, 0xa1, 0xa2, 0xa3, 0xa4, 0xa5, 0xa6, 0xa7];
    assert_eq!(
        make_counter_block(&nonce, 0),
        [0xa0, 0xa1, 0xa2, 0xa3, 0xa4, 0xa5, 0xa6, 0xa7, 0, 0, 0, 0, 0, 0, 0, 0]
    );
    assert_eq!(
        make_counter_block(&nonce, 1),
        [0xa0, 0xa1, 0xa2, 0xa3, 0xa4, 0xa5, 0xa6, 0xa7, 0, 0, 0, 0, 0, 0, 0, 1]
    );
    assert_eq!(
        make_counter_block(&nonce, 0x1_0000_0002),
        [0xa0, 0xa1, 0xa2, 0xa3, 0xa4, 0xa5, 0xa6, 0xa7, 0, 0, 0, 1, 0, 0, 0, 2]
    );
}

#[test]
fn ctr_round_trip_at_the_edges_of_blocks() {
    let key = [0x42u8; 16];
    for len in [0usize, 1, 15, 16, 17, 31, 32, 33, 100] {
        let message: Vec<u8> = (0..len).map(|i| (i * 3 + 7) as u8).collect();
        let cipher_text = ctr_encrypt(message.clone(), key);
        assert_eq!(cipher_text.len(), 8 + len + 16 - len % 16);
        assert_eq!(ctr_decrypt(cipher_text, key), Ok(message));
    }
}

#[test]
fn ctr_round_trip_under_a_given_nonce() {
    let key = [0x42u8; 16];
    let nonce = [1, 2, 3, 4, 5, 6, 7, 8];
    for len in [0usize, 1, 15, 16, 17, 31, 32] {
        let message: Vec<u8> = (0..len).map(|i| (i * 3 + 7) as u8).collect();
        let cipher_text = ctr_encrypt_with_nonce(message.clone(), key, nonce);
        assert_eq!(&cipher_text[..8], &nonce[..]);
        assert_eq!(ctr_decrypt(cipher_text, key), Ok(message));
    }
}

#[test]
fn ctr_of_a_whole_block_is_a_nonce_and_two_blocks() {
    let key = [5u8; 16];
    let message = b"sixteen byte msg".to_vec();
    let cipher_text = ctr_encrypt(message.clone(), key);
    assert_eq!(cipher_text.len(), 40);
    assert_eq!(ctr_decrypt(cipher_text, key), Ok(message));
}

#[test]
fn ctr_known_answer_of_the_zero_key() {
    // AES-128 under the zero key takes the zero block to 66e9..2b2e and the
    // block that ends in 01 to 58e2..455a. The message is one block of
    // zeros, so the second block is the padding, sixteen times 0x10.
    let cipher_text = ctr_encrypt_with_nonce(vec![0u8; 16], [0u8; 16], [0u8; 8]);
    let mut expected = vec![0u8; 8];
    expected.extend(ctr_hex("66e94bd4ef8a2c3b884cfa59ca342b2e"));
    expected.extend(
        ctr_hex("58e2fccefa7e3061367f1d57a4e7455a").iter().map(|b| b ^ 0x10),
    );
    assert_eq!(cipher_text, expected);
}

#[test]
fn ctr_decrypt_known_answer() {
    let mut cipher_text = vec![0u8; 8];
    // key stream xored with "abc" and 13 bytes of padding
    let stream = ctr_hex("66e94bd4ef8a2c3b884cfa59ca342b2e");
    let mut padded = b"abc".to_vec();
    padded.extend(vec![13u8; 13]);
    cipher_text.extend(stream.iter().zip(padded.iter()).map(|(s, p)| s ^ p));
    assert_eq!(ctr_decrypt(cipher_text, [0u8; 16]), Ok(b"abc".to_vec()));
}

#[test]
fn ctr_with_one_nonce_is_deterministic() {
    let key = [8u8; 16];
    let nonce = [1u8; 8];
    let message = b"the same message, twice".to_vec();
    assert_eq!(
        ctr_encrypt_with_nonce(message.clone(), key, nonce),
        ctr_encrypt_with_nonce(message, key, nonce)
    );
}

#[test]
fn ctr_two_nonces_give_two_ciphertexts() {
    let key = [8u8; 16];
    let message = b"the same message, twice".to_vec();
    let one = ctr_encrypt_with_nonce(message.clone(), key, [1, 1, 1, 1, 1, 1, 1, 1]);
    let two = ctr_encrypt_with_nonce(message.clone(), key, [1, 1, 1, 1, 1, 1, 1, 2]);
    assert_ne!(one, two);
    assert_ne!(&one[8..], &two[8..]);
    assert_eq!(ctr_decrypt(one, key), Ok(message.clone()));
    assert_eq!(ctr_decrypt(two, key), Ok(message));
}

#[test]
fn ctr_two_calls_give_two_ciphertexts() {
    let key = [0x00; 16];
    let message = b"Hello, AES in CTR mode! This is a test.".to_vec();
    let one = ctr_encrypt(message.clone(), key);
    let two = ctr_encrypt(message.clone(), key);
    assert_ne!(one, two);
    assert_ne!(&one[..8], &two[..8]);
    assert_eq!(ctr_decrypt(one, key), Ok(message.clone()));
    assert_eq!(ctr_decrypt(two, key), Ok(message));
}

#[test]
fn ctr_blocks_of_one_message_have_different_key_streams() {
    let key = [8u8; 16];
    let cipher_text = ctr_encrypt_with_nonce(vec![0u8; 32], key, [0u8; 8]);
    assert_eq!(cipher_text.len(), 8 + 48);
    assert_ne!(&cipher_text[8..24], &cipher_text[24..40]);
}

#[test]
fn ctr_decrypt_refuses_what_holds_no_nonce() {
    let key = [0u8; 16];
    assert_eq!(
        ctr_decrypt(vec![], key),
        Err(CipherError::InvalidLength { minimum: 8, actual: 0 })
    );
    assert_eq!(
        ctr_decrypt(vec![1u8; 7], key),
        Err(CipherError::InvalidLength { minimum: 8, actual: 7 })
    );
}

#[test]
fn ctr_decrypt_refuses_a_broken_block() {
    let key = [0u8; 16];
    assert_eq!(
        ctr_decrypt(vec![1u8; 9], key),
        Err(CipherError::InvalidLength { minimum: 8, actual: 9 })
    );
    assert_eq!(
        ctr_decrypt(vec![1u8; 16], key),
        Err(CipherError::InvalidLength { minimum: 8, actual: 16 })
    );
    assert_eq!(
        ctr_decrypt(vec![1u8; 25], key),
        Err(CipherError::InvalidLength { minimum: 8, actual: 25 })
    );
}

#[test]
fn ctr_decrypt_of_a_bare_nonce_finds_no_padding() {
    assert_eq!(
        ctr_decrypt(vec![1u8; 8], [0u8; 16]),
        Err(CipherError::MalformedPadding { marker: 0, len: 0 })
    );
}

#[test]
fn ctr_decrypt_reports_a_marker_that_is_none() {
    // the key stream itself ends in 0x2e
    let mut cipher_text = vec![0u8; 8];
    cipher_text.extend(vec![0u8; 16]);
    assert_eq!(
        ctr_decrypt(cipher_text, [0u8; 16]),
        Err(CipherError::MalformedPadding { marker: 0x2e, len: 16 })
    );
}
