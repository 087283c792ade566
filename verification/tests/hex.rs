use git_plumbing::hex::{binary_to_hex_bytes, decode, encode_in_place, HexError};

#[test]
fn valid_binary_to_hex_bytes() {
    let mut binary = vec![0x00, 0x01, 0x02, 0x03];
    binary_to_hex_bytes(&mut binary);
    assert_eq!(binary, b"00010203");
}

#[test]
fn hex_encode_in_place() {
    let mut binary = vec![0x00, 0x01, 0x02, 0x03];
    encode_in_place(&mut binary);
    assert_eq!(binary, b"00010203");
}

#[test]
fn hex_decode() {
    let hex = b"00010203";
    let binary = decode(hex);
    assert!(binary.is_ok());
    assert_eq!(binary.unwrap(), vec![0x00, 0x01, 0x02, 0x03]);
}

#[test]
fn hex_encode_uses_lowercase_digits_high_half_first() {
    let mut binary = vec![0xab, 0xcd, 0xef, 0x10, 0x9f];
    encode_in_place(&mut binary);
    assert_eq!(binary, b"abcdef109f");
}

#[test]
fn hex_encode_of_nothing_is_nothing() {
    let mut binary: Vec<u8> = Vec::new();
    encode_in_place(&mut binary);
    assert!(binary.is_empty());
}

#[test]
fn hex_decode_takes_both_cases() {
    assert_eq!(decode(b"aBcDeF09"), Ok(vec![0xab, 0xcd, 0xef, 0x09]));
}

#[test]
fn hex_decode_refuses_odd_length() {
    assert_eq!(decode(b"abc"), Err(HexError::OddLength));
    assert_eq!(decode(b"g"), Err(HexError::OddLength));
}

#[test]
fn hex_decode_refuses_other_characters() {
    assert_eq!(decode(b"0g"), Err(HexError::InvalidDigit));
    assert_eq!(decode(b"g0"), Err(HexError::InvalidDigit));
    assert_eq!(decode(b"00 1"), Err(HexError::InvalidDigit));
    assert_eq!(decode(b"+1"), Err(HexError::InvalidDigit));
}

#[test]
fn hex_decode_undoes_encode() {
    let bytes: Vec<u8> = (0..=255).collect();
    let mut hex = bytes.clone();
    encode_in_place(&mut hex);
    assert_eq!(hex.len(), 512);
    assert_eq!(decode(&hex), Ok(bytes));
}
