use bitcoin_codec::little_endian::push_le;

#[test]
fn push_le_writes_the_low_byte_first() {
    let mut out: Vec<u8> = Vec::new();
    push_le(&mut out, 0x1234, 2);
    assert_eq!(out, vec![0x34, 0x12]);
    push_le(&mut out, 0xDEAD_BEEF, 4);
    assert_eq!(out, vec![0x34, 0x12, 0xEF, 0xBE, 0xAD, 0xDE]);
}

#[test]
fn push_le_of_eight_bytes() {
    let mut out: Vec<u8> = Vec::new();
    push_le(&mut out, 0x0102_0304_0506_0708, 8);
    assert_eq!(out, vec![0x08, 0x07, 0x06, 0x05, 0x04, 0x03, 0x02, 0x01]);
}

#[test]
fn push_le_keeps_only_the_bytes_asked_for() {
    let mut out: Vec<u8> = vec![0xAA];
    push_le(&mut out, 0x0102_0304, 2);
    assert_eq!(out, vec![0xAA, 0x04, 0x03]);
    push_le(&mut out, 7, 0);
    assert_eq!(out, vec![0xAA, 0x04, 0x03]);
}

#[test]
fn push_le_pads_with_zero_bytes() {
    let mut out: Vec<u8> = Vec::new();
    push_le(&mut out, 1, 4);
    assert_eq!(out, vec![0x01, 0x00, 0x00, 0x00]);
}
