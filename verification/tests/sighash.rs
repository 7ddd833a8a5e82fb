use sighash_scan::sighash::{decode_sighash, extract_sighash_byte, mode_matches, SighashMode};

#[test]
fn extract_returns_last_byte_of_first_push() {
    // push of three bytes; the last one is the flag
    assert_eq!(extract_sighash_byte(&vec![0x03, 0xaa, 0xbb, 0x03]), Some(0x03));
    // a one-byte push
    assert_eq!(extract_sighash_byte(&vec![0x01, 0x81]), Some(0x81));
    // trailing garbage after the push does not matter
    assert_eq!(extract_sighash_byte(&vec![0x02, 0x10, 0x01, 0xff, 0xff]), Some(0x01));
}

#[test]
fn extract_none_for_empty_script() {
    assert_eq!(extract_sighash_byte(&vec![]), None);
}

#[test]
fn extract_none_for_opcode_first() {
    // OP_DUP first
    assert_eq!(extract_sighash_byte(&vec![0x76, 0x01, 0x03]), None);
    // OP_CHECKSIG first
    assert_eq!(extract_sighash_byte(&vec![0xac]), None);
}

#[test]
fn extract_none_for_zero_length_push() {
    assert_eq!(extract_sighash_byte(&vec![0x00]), None);
    assert_eq!(extract_sighash_byte(&vec![0x00, 0x03]), None);
}

#[test]
fn extract_none_for_truncated_push() {
    // opcode asks for 5 bytes, only 2 follow
    assert_eq!(extract_sighash_byte(&vec![0x05, 0x01, 0x02]), None);
}

#[test]
fn extract_handles_pushdata_forms() {
    // OP_PUSHDATA1, length 2
    assert_eq!(extract_sighash_byte(&vec![0x4c, 0x02, 0x07, 0x83]), Some(0x83));
    // OP_PUSHDATA1, length 0
    assert_eq!(extract_sighash_byte(&vec![0x4c, 0x00, 0x07]), None);
    // OP_PUSHDATA2, length 1 (little endian)
    assert_eq!(extract_sighash_byte(&vec![0x4d, 0x01, 0x00, 0x42]), Some(0x42));
    // OP_PUSHDATA2, truncated
    assert_eq!(extract_sighash_byte(&vec![0x4d, 0x02, 0x00, 0x42]), None);
    // OP_PUSHDATA4, length 1
    assert_eq!(extract_sighash_byte(&vec![0x4e, 0x01, 0x00, 0x00, 0x00, 0x42]), Some(0x42));
}

#[test]
fn decode_boundary_legal_values() {
    assert_eq!(decode_sighash(0x01).unwrap(), SighashMode::All);
    assert_eq!(decode_sighash(0x02).unwrap(), SighashMode::NoOutputs);
    assert_eq!(decode_sighash(0x03).unwrap(), SighashMode::SingleOutput);
    assert_eq!(decode_sighash(0x81).unwrap(), SighashMode::AllAnyoneCanPay);
    assert_eq!(decode_sighash(0x82).unwrap(), SighashMode::NoOutputsAnyoneCanPay);
    assert_eq!(decode_sighash(0x83).unwrap(), SighashMode::SingleOutputAnyoneCanPay);
}

#[test]
fn decode_boundary_illegal_values() {
    let err = decode_sighash(0x00).expect_err("0x00 is illegal");
    assert_eq!(err.flag, 0x00);
    let err = decode_sighash(0x04).expect_err("0x04 is illegal");
    assert_eq!(err.flag, 0x04);
    assert!(decode_sighash(0x80).is_err());
    assert!(decode_sighash(0xff).is_err());
    assert!(decode_sighash(0x41).is_err());
}

#[test]
fn only_single_modes_match() {
    assert!(mode_matches(SighashMode::SingleOutput));
    assert!(mode_matches(SighashMode::SingleOutputAnyoneCanPay));
    assert!(!mode_matches(SighashMode::All));
    assert!(!mode_matches(SighashMode::NoOutputs));
    assert!(!mode_matches(SighashMode::AllAnyoneCanPay));
    assert!(!mode_matches(SighashMode::NoOutputsAnyoneCanPay));
}
