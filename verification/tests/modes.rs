use cipher_modes::{cbc_decrypt, cbc_encrypt, ctr_decrypt, ctr_encrypt, ecb_decrypt, ecb_encrypt, BLOCK_SIZE};

#[test]
fn test_ecb_encrypt() {
    let plain_text = "foo bar koo".as_bytes().to_vec();
    let my_key = [
        00, 01, 02, 03, 04, 05, 06, 07, 08, 09, 10, 11, 12, 13, 14, 15,
    ];

    let encrypted_data = ecb_encrypt(plain_text.clone(), my_key);

    assert_ne!(encrypted_data, plain_text);

    let decrypted_data = ecb_decrypt(encrypted_data, my_key).unwrap();

    assert_eq!(decrypted_data, plain_text);
}

#[test]
fn test_ecb_decrypt() {
    let plain_text = "lorem ipsum".as_bytes().to_vec();

    let my_key = [
        00, 01, 02, 03, 04, 05, 06, 07, 08, 09, 10, 11, 12, 13, 14, 15,
    ];

    let encrypted_data = ecb_encrypt(plain_text.clone(), my_key);

    let decrypted_data = ecb_decrypt(encrypted_data, my_key).unwrap();

    assert_eq!(decrypted_data, plain_text);
}

#[test]
fn test_ctr_encrypt_decrypt() {
    // define key for encryption/decryption
    let key = [0x00; BLOCK_SIZE]; // array of 16 bytes

    // define a plain text message to be encrypted
    let plain_text = b"Hello, AES in CTR mode! This is a test.".to_vec();

    // encrypt plain text using CTR mode
    let encrypted_text = ctr_encrypt(plain_text.clone(), key);

    // check that the encrypted text is different from the plain text
    assert_ne!(encrypted_text, plain_text);

    // decrypt the encrypted text using CTR mode
    let decrypted_text = ctr_decrypt(encrypted_text, key).unwrap();

    // check that the decrypted text matches the original plain text
    assert_eq!(decrypted_text, plain_text);
}

#[test]
fn test_cbc_encrypt_decrypt() {
    let input = vec![1, 2, 3, 4, 5, 6, 7, 8, 9, 10, 11, 12, 13, 14, 15, 16, 17];

    let key = b"somekeyofsize123";

    let encrypted_result = cbc_encrypt(input.clone(), *key);

    let decrypted_result = cbc_decrypt(encrypted_result, *key).unwrap();

    println!("Decrypted Result: {:?}", decrypted_result);

    assert_eq!(&input, &decrypted_result);
}
