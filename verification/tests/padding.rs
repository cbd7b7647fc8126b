use cipher_modes::{pad, un_pad, CipherError};

#[test]
fn pad_of_empty_message_is_one_block_of_sixteens() {
    assert_eq!(pad(vec![]), vec![16u8; 16]);
}

#[test]
fn pad_fills_up_with_the_count() {
    let mut expected = vec![1u8, 2, 3];
    expected.extend(vec![13u8; 13]);
    assert_eq!(pad(vec![1, 2, 3]), expected);
}

#[test]
fn pad_of_fifteen_bytes_adds_a_single_one() {
    let mut expected = vec![7u8; 15];
    expected.push(1);
    assert_eq!(pad(vec![7u8; 15]), expected);
}

#[test]
fn pad_of_a_whole_block_adds_a_whole_block() {
    let data: Vec<u8> = (0u8..16).collect();
    let padded = pad(data.clone());
    assert_eq!(padded.len(), 32);
    assert_eq!(&padded[..16], &data[..]);
    assert_eq!(&padded[16..], &[16u8; 16][..]);
}

#[test]
fn pad_of_seventeen_bytes() {
    let x = vec![1, 2, 3, 4, 5, 6, 7, 8, 9, 10, 11, 12, 13, 14, 15, 16, 17];
    let padded = pad(x.clone());
    assert_eq!(padded.len(), 32);
    assert_eq!(&padded[..17], &x[..]);
    assert_eq!(&padded[17..], &[15u8; 15][..]);
}

#[test]
fn pad_length_is_the_next_multiple_of_the_block() {
    for len in 0usize..100 {
        let padded = pad(vec![0xabu8; len]);
        let added = padded.len() - len;
        assert!(1 <= added && added <= 16, "len {}", len);
        assert_eq!(padded.len() % 16, 0, "len {}", len);
        assert_eq!(added, 16 - len % 16, "len {}", len);
        assert_eq!(&padded[..len], &vec![0xabu8; len][..]);
        assert!(padded[len..].iter().all(|b| *b as usize == added));
    }
}

#[test]
fn un_pad_undoes_pad() {
    for len in [0usize, 1, 15, 16, 17, 31, 32, 33, 255, 256] {
        let message: Vec<u8> = (0..len).map(|i| (i * 7 + 3) as u8).collect();
        assert_eq!(un_pad(pad(message.clone())), Ok(message));
    }
}

#[test]
fn un_pad_undoes_pad_when_the_message_ends_in_small_bytes() {
    // the message itself ends in bytes that look like markers
    let message = vec![9u8, 9, 9, 1, 2, 1];
    assert_eq!(un_pad(pad(message.clone())), Ok(message));
    let message = vec![16u8; 16];
    assert_eq!(un_pad(pad(message.clone())), Ok(message));
}

#[test]
fn un_pad_removes_as_many_bytes_as_the_last_says() {
    assert_eq!(un_pad(vec![5, 6, 7, 8, 2]), Ok(vec![5, 6, 7]));
    assert_eq!(un_pad(vec![5, 6, 7, 8, 1]), Ok(vec![5, 6, 7, 8]));
    assert_eq!(un_pad(vec![1]), Ok(vec![]));
    assert_eq!(un_pad(vec![3, 3, 3]), Ok(vec![]));
}

#[test]
fn un_pad_looks_at_the_last_byte_only() {
    // the two bytes removed are not both 2
    assert_eq!(un_pad(vec![10, 20, 30, 40, 2]), Ok(vec![10, 20, 30]));
}

#[test]
fn un_pad_refuses_the_empty_buffer() {
    assert_eq!(un_pad(vec![]), Err(CipherError::MalformedPadding { marker: 0, len: 0 }));
}

#[test]
fn un_pad_refuses_a_zero_marker() {
    assert_eq!(un_pad(vec![0]), Err(CipherError::MalformedPadding { marker: 0, len: 1 }));
    assert_eq!(
        un_pad(vec![4u8, 4, 4, 0]),
        Err(CipherError::MalformedPadding { marker: 0, len: 4 })
    );
    assert_eq!(
        un_pad(vec![0u8; 16]),
        Err(CipherError::MalformedPadding { marker: 0, len: 16 })
    );
}

#[test]
fn un_pad_refuses_a_marker_over_the_block_size() {
    assert_eq!(
        un_pad(vec![17u8; 32]),
        Err(CipherError::MalformedPadding { marker: 17, len: 32 })
    );
    assert_eq!(
        un_pad(vec![255u8; 300]),
        Err(CipherError::MalformedPadding { marker: 255, len: 300 })
    );
}

#[test]
fn un_pad_refuses_a_marker_over_the_length() {
    assert_eq!(un_pad(vec![2]), Err(CipherError::MalformedPadding { marker: 2, len: 1 }));
    assert_eq!(
        un_pad(vec![1, 1, 4]),
        Err(CipherError::MalformedPadding { marker: 4, len: 3 })
    );
}

#[test]
fn un_pad_takes_a_marker_of_a_whole_block() {
    assert_eq!(un_pad(vec![16u8; 16]), Ok(vec![]));
    let mut buffer = vec![1u8, 2, 3];
    buffer.extend(vec![16u8; 16]);
    assert_eq!(un_pad(buffer), Ok(vec![1, 2, 3]));
}
