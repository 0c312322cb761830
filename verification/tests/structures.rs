use bitcoin_codec::{
    BitcoinError, BitcoinTransaction, OutPoint, Script, TransactionInput, Txid,
};

fn ascending_id() -> [u8; 32] {
    let mut id: [u8; 32] = [0u8; 32];
    for (i, byte) in id.iter_mut().enumerate() {
        *byte = i as u8 + 1;
    }
    id
}

fn sample_input(vout: u32, script: Vec<u8>, sequence: u32) -> TransactionInput {
    TransactionInput::new(OutPoint::new(ascending_id(), vout), Script::new(script), sequence)
}

fn sample_transaction() -> BitcoinTransaction {
    BitcoinTransaction::new(
        2,
        vec![
            sample_input(0, vec![0x51], 0xFFFF_FFFF),
            sample_input(7, vec![], 1),
            sample_input(0xDEAD_BEEF, vec![0xAB; 300], 0),
        ],
        500_000,
    )
}

fn assert_every_truncation_fails<T: std::fmt::Debug + PartialEq>(
    bytes: &[u8],
    decode: fn(&[u8]) -> Result<(T, usize), BitcoinError>,
) {
    for cut in 1..=bytes.len() {
        assert_eq!(decode(&bytes[..bytes.len() - cut]), Err(BitcoinError::InsufficientBytes));
    }
}

#[test]
fn outpoint_new_keeps_its_fields() {
    let outpoint: OutPoint = OutPoint::new(ascending_id(), 9);
    assert_eq!(outpoint.txid, Txid(ascending_id()));
    assert_eq!(outpoint.vout, 9);
}

#[test]
fn outpoint_round_trip() {
    let outpoint: OutPoint = OutPoint::new(ascending_id(), 0xDEAD_BEEF);
    let bytes: Vec<u8> = outpoint.to_bytes();
    assert_eq!(bytes.len(), 36);
    assert_eq!(&bytes[..32], &ascending_id()[..]);
    assert_eq!(&bytes[32..], &[0xEF, 0xBE, 0xAD, 0xDE]);
    assert_eq!(OutPoint::from_bytes(&bytes), Ok((outpoint, 36)));
}

#[test]
fn outpoint_decoding_leaves_what_follows() {
    let mut bytes: Vec<u8> = OutPoint::new([0x11; 32], 3).to_bytes();
    bytes.extend_from_slice(&[1, 2, 3]);
    assert_eq!(OutPoint::from_bytes(&bytes), Ok((OutPoint::new([0x11; 32], 3), 36)));
}

#[test]
fn outpoint_needs_36_bytes() {
    assert_eq!(OutPoint::from_bytes(&[]), Err(BitcoinError::InsufficientBytes));
    assert_eq!(OutPoint::from_bytes(&[0u8; 35]), Err(BitcoinError::InsufficientBytes));
    assert_eq!(OutPoint::from_bytes(&[0u8; 36]), Ok((OutPoint::new([0u8; 32], 0), 36)));
}

#[test]
fn outpoint_truncated_never_decodes() {
    let bytes: Vec<u8> = OutPoint::new(ascending_id(), 0xDEAD_BEEF).to_bytes();
    assert_every_truncation_fails(&bytes, OutPoint::from_bytes);
}

#[test]
fn script_new_and_accessor() {
    let script: Script = Script::new(vec![1, 2, 3]);
    assert_eq!(script.bytes, vec![1, 2, 3]);
    assert_eq!(script.as_bytes(), &[1, 2, 3]);
    assert_eq!(Script::new(Vec::new()).as_bytes().len(), 0);
}

#[test]
fn script_encoding_is_prefix_and_body() {
    assert_eq!(Script::new(vec![]).to_bytes(), vec![0x00]);
    assert_eq!(Script::new(vec![0x51]).to_bytes(), vec![0x01, 0x51]);
    assert_eq!(Script::new(vec![0xAA, 0xBB, 0xCC]).to_bytes(), vec![0x03, 0xAA, 0xBB, 0xCC]);
}

#[test]
fn script_of_253_bytes_takes_the_three_byte_prefix() {
    let bytes: Vec<u8> = Script::new(vec![0x6A; 253]).to_bytes();
    assert_eq!(bytes.len(), 256);
    assert_eq!(&bytes[..3], &[0xFD, 0xFD, 0x00]);
    assert_eq!(&bytes[3..], &[0x6A; 253][..]);
    assert_eq!(Script::from_bytes(&bytes), Ok((Script::new(vec![0x6A; 253]), 256)));
}

#[test]
fn script_round_trip() {
    for len in [0usize, 1, 252, 253, 300, 70_000] {
        let script: Script = Script::new((0..len).map(|i| i as u8).collect());
        let bytes: Vec<u8> = script.to_bytes();
        let used: usize = bytes.len();
        assert_eq!(Script::from_bytes(&bytes), Ok((script, used)));
    }
}

#[test]
fn script_decoding_leaves_what_follows() {
    assert_eq!(
        Script::from_bytes(&[0x02, 0xAA, 0xBB, 0xCC, 0xDD]),
        Ok((Script::new(vec![0xAA, 0xBB]), 3))
    );
}

#[test]
fn script_accepts_a_non_minimal_prefix() {
    assert_eq!(
        Script::from_bytes(&[0xFD, 0x02, 0x00, 0xAA, 0xBB]),
        Ok((Script::new(vec![0xAA, 0xBB]), 5))
    );
}

#[test]
fn script_declaring_more_than_is_there_is_insufficient() {
    let bytes: [u8; 8] = [0xFD, 0xE8, 0x03, 1, 2, 3, 4, 5];
    assert_eq!(Script::from_bytes(&bytes), Err(BitcoinError::InsufficientBytes));
}

#[test]
fn script_declaring_the_largest_length_is_insufficient() {
    let mut bytes: Vec<u8> = vec![0xFF; 9];
    bytes.extend_from_slice(&[0u8; 64]);
    assert_eq!(Script::from_bytes(&bytes), Err(BitcoinError::InsufficientBytes));
}

#[test]
fn script_without_a_complete_prefix_is_insufficient() {
    assert_eq!(Script::from_bytes(&[]), Err(BitcoinError::InsufficientBytes));
    assert_eq!(Script::from_bytes(&[0xFD, 0x01]), Err(BitcoinError::InsufficientBytes));
}

#[test]
fn script_truncated_never_decodes() {
    for len in [0usize, 1, 5, 253, 300] {
        let bytes: Vec<u8> = Script::new(vec![0x42; len]).to_bytes();
        assert_every_truncation_fails(&bytes, Script::from_bytes);
    }
}

#[test]
fn input_new_keeps_its_fields() {
    let input: TransactionInput = sample_input(4, vec![9, 8], 77);
    assert_eq!(input.previous_output, OutPoint::new(ascending_id(), 4));
    assert_eq!(input.script_sig, Script::new(vec![9, 8]));
    assert_eq!(input.sequence, 77);
}

#[test]
fn input_encoding_is_outpoint_script_sequence() {
    let bytes: Vec<u8> = sample_input(1, vec![0x51, 0x52], 0x0102_0304).to_bytes();
    let mut expected: Vec<u8> = ascending_id().to_vec();
    expected.extend_from_slice(&[0x01, 0x00, 0x00, 0x00]);
    expected.extend_from_slice(&[0x02, 0x51, 0x52]);
    expected.extend_from_slice(&[0x04, 0x03, 0x02, 0x01]);
    assert_eq!(bytes, expected);
}

#[test]
fn input_round_trip() {
    let input: TransactionInput = sample_input(0xDEAD_BEEF, vec![0xAB; 300], 0xFFFF_FFFE);
    let bytes: Vec<u8> = input.to_bytes();
    assert_eq!(bytes.len(), 36 + 3 + 300 + 4);
    let used: usize = bytes.len();
    assert_eq!(TransactionInput::from_bytes(&bytes), Ok((input, used)));
}

#[test]
fn input_decoding_leaves_what_follows() {
    let input: TransactionInput = sample_input(2, vec![0x51], 5);
    let mut bytes: Vec<u8> = input.to_bytes();
    bytes.extend_from_slice(&[0xFF; 10]);
    assert_eq!(TransactionInput::from_bytes(&bytes), Ok((input, 42)));
}

#[test]
fn input_without_its_sequence_is_insufficient() {
    let bytes: Vec<u8> = sample_input(2, vec![0x51], 5).to_bytes();
    assert_eq!(
        TransactionInput::from_bytes(&bytes[..bytes.len() - 1]),
        Err(BitcoinError::InsufficientBytes)
    );
    assert_eq!(
        TransactionInput::from_bytes(&bytes[..38]),
        Err(BitcoinError::InsufficientBytes)
    );
}

#[test]
fn input_truncated_never_decodes() {
    let bytes: Vec<u8> = sample_input(0xDEAD_BEEF, vec![0xAB; 300], 0xFFFF_FFFE).to_bytes();
    assert_every_truncation_fails(&bytes, TransactionInput::from_bytes);
}

#[test]
fn transaction_new_keeps_its_fields() {
    let tx: BitcoinTransaction = BitcoinTransaction::new(3, vec![sample_input(1, vec![], 2)], 4);
    assert_eq!(tx.version, 3);
    assert_eq!(tx.inputs, vec![sample_input(1, vec![], 2)]);
    assert_eq!(tx.lock_time, 4);
}

#[test]
fn empty_transaction_is_nine_bytes() {
    let tx: BitcoinTransaction = BitcoinTransaction::new(1, Vec::new(), 0);
    let bytes: Vec<u8> = tx.to_bytes();
    assert_eq!(bytes, vec![0x01, 0x00, 0x00, 0x00, 0x00, 0x00, 0x00, 0x00, 0x00]);
    assert_eq!(BitcoinTransaction::from_bytes(&bytes), Ok((tx, 9)));
}

#[test]
fn transaction_encoding_is_version_count_inputs_lock_time() {
    let tx: BitcoinTransaction =
        BitcoinTransaction::new(2, vec![sample_input(0, vec![0x51], 0xFFFF_FFFF)], 0x0A0B_0C0D);
    let mut expected: Vec<u8> = vec![0x02, 0x00, 0x00, 0x00, 0x01];
    expected.extend_from_slice(&ascending_id());
    expected.extend_from_slice(&[0x00, 0x00, 0x00, 0x00]);
    expected.extend_from_slice(&[0x01, 0x51]);
    expected.extend_from_slice(&[0xFF, 0xFF, 0xFF, 0xFF]);
    expected.extend_from_slice(&[0x0D, 0x0C, 0x0B, 0x0A]);
    assert_eq!(tx.to_bytes(), expected);
}

#[test]
fn transaction_round_trip_keeps_the_order_of_inputs() {
    let tx: BitcoinTransaction = sample_transaction();
    let bytes: Vec<u8> = tx.to_bytes();
    let used: usize = bytes.len();
    let (decoded, consumed): (BitcoinTransaction, usize) =
        BitcoinTransaction::from_bytes(&bytes).unwrap();
    assert_eq!(consumed, used);
    assert_eq!(decoded.inputs[0].previous_output.vout, 0);
    assert_eq!(decoded.inputs[1].previous_output.vout, 7);
    assert_eq!(decoded.inputs[2].previous_output.vout, 0xDEAD_BEEF);
    assert_eq!(decoded, tx);
    assert_eq!(decoded.to_bytes(), bytes);
}

#[test]
fn transaction_with_253_inputs_takes_the_three_byte_count() {
    let inputs: Vec<TransactionInput> =
        (0..253u32).map(|i| sample_input(i, vec![i as u8], i)).collect();
    let tx: BitcoinTransaction = BitcoinTransaction::new(1, inputs, 0);
    let bytes: Vec<u8> = tx.to_bytes();
    assert_eq!(&bytes[4..7], &[0xFD, 0xFD, 0x00]);
    assert_eq!(bytes.len(), 4 + 3 + 253 * 42 + 4);
    let used: usize = bytes.len();
    assert_eq!(BitcoinTransaction::from_bytes(&bytes), Ok((tx, used)));
}

#[test]
fn transaction_decoding_leaves_what_follows() {
    let tx: BitcoinTransaction = sample_transaction();
    let mut bytes: Vec<u8> = tx.to_bytes();
    let used: usize = bytes.len();
    bytes.extend_from_slice(&[0xEE; 7]);
    assert_eq!(BitcoinTransaction::from_bytes(&bytes), Ok((tx, used)));
}

#[test]
fn transaction_shorter_than_a_version_is_insufficient() {
    assert_eq!(BitcoinTransaction::from_bytes(&[]), Err(BitcoinError::InsufficientBytes));
    assert_eq!(BitcoinTransaction::from_bytes(&[1, 0, 0]), Err(BitcoinError::InsufficientBytes));
    assert_eq!(
        BitcoinTransaction::from_bytes(&[1, 0, 0, 0]),
        Err(BitcoinError::InsufficientBytes)
    );
}

#[test]
fn transaction_counting_more_inputs_than_it_holds_is_insufficient() {
    let mut bytes: Vec<u8> = vec![0x01, 0x00, 0x00, 0x00, 0x02];
    bytes.extend_from_slice(&sample_input(0, vec![0x51], 0).to_bytes());
    bytes.extend_from_slice(&[0x00, 0x00, 0x00, 0x00]);
    assert_eq!(BitcoinTransaction::from_bytes(&bytes), Err(BitcoinError::InsufficientBytes));
}

#[test]
fn transaction_counting_the_largest_number_of_inputs_is_insufficient() {
    let mut bytes: Vec<u8> = vec![0x01, 0x00, 0x00, 0x00];
    bytes.extend_from_slice(&[0xFF; 9]);
    bytes.extend_from_slice(&sample_input(0, vec![0x51], 0).to_bytes());
    assert_eq!(BitcoinTransaction::from_bytes(&bytes), Err(BitcoinError::InsufficientBytes));
}

#[test]
fn transaction_without_its_lock_time_is_insufficient() {
    let bytes: Vec<u8> = sample_transaction().to_bytes();
    assert_eq!(
        BitcoinTransaction::from_bytes(&bytes[..bytes.len() - 4]),
        Err(BitcoinError::InsufficientBytes)
    );
}

#[test]
fn transaction_truncated_never_decodes() {
    let bytes: Vec<u8> = sample_transaction().to_bytes();
    assert_every_truncation_fails(&bytes, BitcoinTransaction::from_bytes);
    let empty: Vec<u8> = BitcoinTransaction::new(1, Vec::new(), 0).to_bytes();
    assert_every_truncation_fails(&empty, BitcoinTransaction::from_bytes);
}
