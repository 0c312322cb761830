use bitcoin_codec::{BitcoinError, CompactSize};

fn round_trip(value: u64, width: usize) {
    let bytes: Vec<u8> = CompactSize::new(value).to_bytes();
    assert_eq!(bytes.len(), width);
    assert_eq!(CompactSize::from_bytes(&bytes), Ok((CompactSize::new(value), width)));
}

#[test]
fn new_keeps_the_value() {
    assert_eq!(CompactSize::new(7).value, 7);
    assert_eq!(CompactSize::new(u64::MAX).value, u64::MAX);
}

#[test]
fn round_trip_at_every_width_boundary() {
    round_trip(0, 1);
    round_trip(1, 1);
    round_trip(252, 1);
    round_trip(253, 3);
    round_trip(65535, 3);
    round_trip(65536, 5);
    round_trip(4294967295, 5);
    round_trip(4294967296, 9);
    round_trip(u64::MAX, 9);
}

#[test]
fn one_byte_form() {
    assert_eq!(CompactSize::new(0).to_bytes(), vec![0x00]);
    assert_eq!(CompactSize::new(0x51).to_bytes(), vec![0x51]);
    assert_eq!(CompactSize::new(0xFC).to_bytes(), vec![0xFC]);
}

#[test]
fn three_byte_form() {
    assert_eq!(CompactSize::new(0xFD).to_bytes(), vec![0xFD, 0xFD, 0x00]);
    assert_eq!(CompactSize::new(300).to_bytes(), vec![0xFD, 0x2C, 0x01]);
    assert_eq!(CompactSize::new(0xFFFF).to_bytes(), vec![0xFD, 0xFF, 0xFF]);
}

#[test]
fn five_byte_form() {
    assert_eq!(CompactSize::new(0x1_0000).to_bytes(), vec![0xFE, 0x00, 0x00, 0x01, 0x00]);
    assert_eq!(CompactSize::new(0x1234_5678).to_bytes(), vec![0xFE, 0x78, 0x56, 0x34, 0x12]);
    assert_eq!(CompactSize::new(0xFFFF_FFFF).to_bytes(), vec![0xFE, 0xFF, 0xFF, 0xFF, 0xFF]);
}

#[test]
fn nine_byte_form() {
    assert_eq!(
        CompactSize::new(0x1_0000_0000).to_bytes(),
        vec![0xFF, 0x00, 0x00, 0x00, 0x00, 0x01, 0x00, 0x00, 0x00]
    );
    assert_eq!(
        CompactSize::new(0x0102_0304_0506_0708).to_bytes(),
        vec![0xFF, 0x08, 0x07, 0x06, 0x05, 0x04, 0x03, 0x02, 0x01]
    );
    assert_eq!(CompactSize::new(u64::MAX).to_bytes(), vec![0xFF; 9]);
}

#[test]
fn non_minimal_form_is_accepted() {
    assert_eq!(CompactSize::from_bytes(&[0xFD, 0x01, 0x00]), Ok((CompactSize::new(1), 3)));
    assert_eq!(
        CompactSize::from_bytes(&[0xFE, 0x01, 0x00, 0x00, 0x00]),
        Ok((CompactSize::new(1), 5))
    );
    assert_eq!(
        CompactSize::from_bytes(&[0xFF, 0x01, 0x00, 0x00, 0x00, 0x00, 0x00, 0x00, 0x00]),
        Ok((CompactSize::new(1), 9))
    );
}

#[test]
fn decoding_reads_little_endian() {
    assert_eq!(CompactSize::from_bytes(&[0xFD, 0x34, 0x12]), Ok((CompactSize::new(0x1234), 3)));
    assert_eq!(
        CompactSize::from_bytes(&[0xFE, 0x78, 0x56, 0x34, 0x12]),
        Ok((CompactSize::new(0x1234_5678), 5))
    );
    assert_eq!(
        CompactSize::from_bytes(&[0xFF, 0x08, 0x07, 0x06, 0x05, 0x04, 0x03, 0x02, 0x01]),
        Ok((CompactSize::new(0x0102_0304_0506_0708), 9))
    );
}

#[test]
fn decoding_leaves_what_follows() {
    assert_eq!(CompactSize::from_bytes(&[0x05, 0xAA, 0xBB]), Ok((CompactSize::new(5), 1)));
    assert_eq!(
        CompactSize::from_bytes(&[0xFD, 0x00, 0x01, 0xAA, 0xBB]),
        Ok((CompactSize::new(256), 3))
    );
}

#[test]
fn empty_buffer_is_insufficient() {
    assert_eq!(CompactSize::from_bytes(&[]), Err(BitcoinError::InsufficientBytes));
}

#[test]
fn short_payload_is_insufficient() {
    assert_eq!(CompactSize::from_bytes(&[0xFD]), Err(BitcoinError::InsufficientBytes));
    assert_eq!(CompactSize::from_bytes(&[0xFD, 0x01]), Err(BitcoinError::InsufficientBytes));
    assert_eq!(
        CompactSize::from_bytes(&[0xFE, 0x01, 0x02, 0x03]),
        Err(BitcoinError::InsufficientBytes)
    );
    assert_eq!(
        CompactSize::from_bytes(&[0xFF, 1, 2, 3, 4, 5, 6, 7]),
        Err(BitcoinError::InsufficientBytes)
    );
}

#[test]
fn truncated_encoding_never_decodes() {
    let values: Vec<u64> = vec![0, 252, 253, 65535, 65536, 4294967295, 4294967296, u64::MAX];
    for value in values {
        let bytes: Vec<u8> = CompactSize::new(value).to_bytes();
        for cut in 1..=bytes.len() {
            assert_eq!(
                CompactSize::from_bytes(&bytes[..bytes.len() - cut]),
                Err(BitcoinError::InsufficientBytes)
            );
        }
    }
}
