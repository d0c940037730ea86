use oyldb_deployer::{pack_identifier, oyldb_str_to_u128, PackError, MAX_IDENTIFIER_BYTES};

#[test]
fn empty_identifier_packs_to_zero() {
    assert_eq!(pack_identifier(&[]), Ok(0u128));
    assert_eq!(oyldb_str_to_u128(""), Ok(0u128));
}

#[test]
fn oyldb_packs_to_expected_value() {
    let bytes: [u8; 5] = [0x6F, 0x79, 0x6C, 0x64, 0x62];
    assert_eq!(pack_identifier(&bytes), Ok(0x62646C796Fu128));
    assert_eq!(oyldb_str_to_u128("oyldb"), Ok(422591625583u128));
}

#[test]
fn packed_bytes_match_std_little_endian() {
    let inputs: [&[u8]; 4] = [b"a", b"oyldb", b"\x00\xFF\x00", b"0123456789abcdef"];
    for bytes in inputs {
        let mut buf = [0u8; 16];
        buf[..bytes.len()].copy_from_slice(bytes);
        assert_eq!(pack_identifier(bytes), Ok(u128::from_le_bytes(buf)));
    }
}

#[test]
fn round_trip_recovers_the_input() {
    let inputs: [&[u8]; 5] = [b"", b"a", b"oyldb", b"\x00\x01\x02", b"exactly16bytes!!"];
    for bytes in inputs {
        let value = pack_identifier(bytes).unwrap();
        assert_eq!(&value.to_le_bytes()[..bytes.len()], bytes);
    }
}

#[test]
fn high_bytes_beyond_the_input_are_zero() {
    let bytes = b"oyldb";
    let value = pack_identifier(bytes).unwrap();
    for byte in &value.to_le_bytes()[bytes.len()..] {
        assert_eq!(*byte, 0u8);
    }
    assert!(value < 1u128 << (8 * bytes.len()));
}

#[test]
fn sixteen_byte_identifier_fills_the_whole_value() {
    let bytes = b"0123456789abcdef";
    assert_eq!(bytes.len(), MAX_IDENTIFIER_BYTES);
    let value = pack_identifier(bytes).unwrap();
    assert_eq!(value.to_le_bytes(), *bytes);
    assert_ne!(value.to_le_bytes()[15], 0u8);
}

#[test]
fn seventeen_byte_identifier_is_rejected() {
    let s = "thisidentifieris!";
    assert_eq!(s.len(), 17);
    assert_eq!(oyldb_str_to_u128(s), Err(PackError::InputTooLong));
    assert_eq!(pack_identifier(&[0u8; 17]), Err(PackError::InputTooLong));
    assert_eq!(pack_identifier(&[0xFFu8; 100]), Err(PackError::InputTooLong));
}

#[test]
fn multibyte_utf8_identifier_counts_bytes_not_chars() {
    // Nine characters, eighteen bytes: rejected on byte length.
    assert_eq!(oyldb_str_to_u128("ééééééééé"), Err(PackError::InputTooLong));
    // Four characters, eight bytes: accepted.
    let value = oyldb_str_to_u128("éééé").unwrap();
    assert_eq!(&value.to_le_bytes()[..8], "éééé".as_bytes());
}
