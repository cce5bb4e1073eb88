//! The byte codec against the reference implementation of the same format:
//! every encoding the library produces must be byte-for-byte what `bincode`
//! produces under the big-endian, variable-integer configuration, and
//! decoding must agree as well.

use redb_bincode::{decode_value, encode_value, DecodeError};

fn reference_config() -> bincode::config::Configuration<bincode::config::BigEndian> {
    bincode::config::standard()
        .with_big_endian()
        .with_variable_int_encoding()
}

fn reference_encode<E: bincode::Encode>(v: &E) -> Vec<u8> {
    bincode::encode_to_vec(v, reference_config()).unwrap()
}

#[test]
fn u64_single_byte_class() {
    for x in [0u64, 1, 7, 100, 249, 250] {
        let enc = encode_value(&x);
        assert_eq!(enc, reference_encode(&x));
        assert_eq!(decode_value::<u64>(&enc), Ok(x));
    }
    assert_eq!(encode_value(&0u64), vec![0u8]);
    assert_eq!(encode_value(&250u64), vec![250u8]);
}

#[test]
fn u64_two_byte_class() {
    for x in [251u64, 252, 1000, 0x1234, 0xFFFF] {
        let enc = encode_value(&x);
        assert_eq!(enc, reference_encode(&x));
        assert_eq!(enc[0], 251);
        assert_eq!(enc.len(), 3);
        assert_eq!(decode_value::<u64>(&enc), Ok(x));
    }
    assert_eq!(encode_value(&251u64), vec![251u8, 0, 251]);
    assert_eq!(encode_value(&0xFFFFu64), vec![251u8, 0xFF, 0xFF]);
}

#[test]
fn u64_four_byte_class() {
    for x in [0x1_0000u64, 0xDEAD_BEEF, 0xFFFF_FFFF] {
        let enc = encode_value(&x);
        assert_eq!(enc, reference_encode(&x));
        assert_eq!(enc[0], 252);
        assert_eq!(enc.len(), 5);
        assert_eq!(decode_value::<u64>(&enc), Ok(x));
    }
    assert_eq!(encode_value(&0x1_0000u64), vec![252u8, 0, 1, 0, 0]);
}

#[test]
fn u64_eight_byte_class() {
    for x in [0x1_0000_0000u64, 0x0123_4567_89AB_CDEF, u64::MAX] {
        let enc = encode_value(&x);
        assert_eq!(enc, reference_encode(&x));
        assert_eq!(enc[0], 253);
        assert_eq!(enc.len(), 9);
        assert_eq!(decode_value::<u64>(&enc), Ok(x));
    }
    assert_eq!(
        encode_value(&u64::MAX),
        vec![253u8, 0xFF, 0xFF, 0xFF, 0xFF, 0xFF, 0xFF, 0xFF, 0xFF]
    );
}

#[test]
fn u64_decode_errors() {
    assert_eq!(decode_value::<u64>(&[]), Err(DecodeError::UnexpectedEnd));
    assert_eq!(decode_value::<u64>(&[251]), Err(DecodeError::UnexpectedEnd));
    assert_eq!(decode_value::<u64>(&[251, 1]), Err(DecodeError::UnexpectedEnd));
    assert_eq!(decode_value::<u64>(&[252, 1, 2, 3]), Err(DecodeError::UnexpectedEnd));
    assert_eq!(decode_value::<u64>(&[253, 1, 2, 3, 4, 5, 6, 7]), Err(DecodeError::UnexpectedEnd));
    assert_eq!(decode_value::<u64>(&[254]), Err(DecodeError::InvalidTag));
    assert_eq!(decode_value::<u64>(&[255]), Err(DecodeError::InvalidTag));
}

#[test]
fn u64_non_canonical_accepted_like_reference() {
    // A value stored in a wider class than it needs is accepted, matching
    // the reference decoder.
    let bytes = [251u8, 0, 5];
    let (reference, _): (u64, usize) =
        bincode::decode_from_slice(&bytes, reference_config()).unwrap();
    assert_eq!(reference, 5);
    assert_eq!(decode_value::<u64>(&bytes), Ok(5));
}

#[test]
fn u64_trailing_bytes_ignored() {
    let mut enc = encode_value(&42u64);
    enc.extend_from_slice(&[9, 9, 9]);
    assert_eq!(decode_value::<u64>(&enc), Ok(42));
}

#[test]
fn string_encoding_matches_reference() {
    for s in ["", "a", "bar", "hello world", "héllo ünïcode ✓"] {
        let owned = s.to_string();
        let enc = encode_value(&owned);
        assert_eq!(enc, reference_encode(&owned));
        assert_eq!(decode_value::<String>(&enc), Ok(owned));
    }
    assert_eq!(encode_value(&String::new()), vec![0u8]);
    assert_eq!(encode_value(&"bar".to_string()), vec![3u8, b'b', b'a', b'r']);
}

#[test]
fn string_decode_errors() {
    // Length prefix missing entirely.
    assert_eq!(decode_value::<String>(&[]), Err(DecodeError::UnexpectedEnd));
    // Length prefix promises more bytes than follow.
    assert_eq!(decode_value::<String>(&[5, b'a', b'b']), Err(DecodeError::UnexpectedEnd));
    // Bytes that are not UTF-8.
    assert_eq!(decode_value::<String>(&[2, 0xFF, 0xFE]), Err(DecodeError::InvalidUtf8));
}

#[test]
fn bool_and_u8_match_reference() {
    for b in [false, true] {
        let enc = encode_value(&b);
        assert_eq!(enc, reference_encode(&b));
        assert_eq!(decode_value::<bool>(&enc), Ok(b));
    }
    assert_eq!(decode_value::<bool>(&[2]), Err(DecodeError::InvalidTag));
    assert_eq!(decode_value::<bool>(&[]), Err(DecodeError::UnexpectedEnd));
    for x in [0u8, 1, 127, 250, 251, 255] {
        let enc = encode_value(&x);
        assert_eq!(enc, reference_encode(&x));
        assert_eq!(decode_value::<u8>(&enc), Ok(x));
    }
}

#[test]
fn u32_matches_reference_and_rejects_wide_tags() {
    for x in [0u32, 1, 250, 251, 0xFFFF, 0x1_0000, u32::MAX] {
        let enc = encode_value(&x);
        assert_eq!(enc, reference_encode(&x));
        assert_eq!(decode_value::<u32>(&enc), Ok(x));
        // The same bytes read back as a 64-bit integer give the same value.
        assert_eq!(decode_value::<u64>(&enc), Ok(x as u64));
    }
    // A 64-bit width tag cannot hold a 32-bit value.
    let wide = encode_value(&0x1_0000_0000u64);
    assert_eq!(wide[0], 253);
    assert_eq!(decode_value::<u32>(&wide), Err(DecodeError::InvalidTag));
    assert_eq!(decode_value::<u32>(&[251, 1]), Err(DecodeError::UnexpectedEnd));
}

#[test]
fn byte_vector_matches_reference() {
    for v in [vec![], vec![0u8], vec![1, 2, 3], vec![0xFF; 300]] {
        let enc = encode_value(&v);
        assert_eq!(enc, reference_encode(&v));
        assert_eq!(decode_value::<Vec<u8>>(&enc), Ok(v));
    }
    assert_eq!(encode_value(&vec![7u8, 8]), vec![2u8, 7, 8]);
    // Length prefix promising more than follows.
    assert_eq!(decode_value::<Vec<u8>>(&[3, 1]), Err(DecodeError::UnexpectedEnd));
}

#[test]
fn pair_encoding_matches_reference() {
    let record = (13u64, "bar".to_string());
    let enc = encode_value(&record);
    assert_eq!(enc, reference_encode(&record));
    assert_eq!(decode_value::<(u64, String)>(&enc), Ok(record));

    let nested = (1000u64, (true, "x".to_string()));
    let enc = encode_value(&nested);
    assert_eq!(enc, reference_encode(&nested));
    assert_eq!(decode_value::<(u64, (bool, String))>(&enc), Ok(nested));
}

#[test]
fn pair_decode_error_in_second_field() {
    // A valid first field followed by a truncated second field.
    let mut enc = encode_value(&7u64);
    enc.push(5);
    assert_eq!(
        decode_value::<(u64, String)>(&enc),
        Err(DecodeError::UnexpectedEnd)
    );
}

#[test]
fn i64_zigzag_matches_reference() {
    for x in [
        0i64,
        -1,
        1,
        -2,
        2,
        125,
        -125,
        126,
        -126,
        1000,
        -1000,
        i64::MAX,
        i64::MIN,
    ] {
        let enc = encode_value(&x);
        assert_eq!(enc, reference_encode(&x), "value {}", x);
        assert_eq!(decode_value::<i64>(&enc), Ok(x));
    }
    // Zigzag sends small magnitudes to small codes: -1 is 1, 1 is 2.
    assert_eq!(encode_value(&-1i64), vec![1u8]);
    assert_eq!(encode_value(&1i64), vec![2u8]);
    assert_eq!(decode_value::<i64>(&[254]), Err(DecodeError::InvalidTag));
}
