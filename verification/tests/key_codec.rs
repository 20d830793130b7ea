use cdc_core::codec::CodecError;
use cdc_core::key::{is_short_value, Key};
use cdc_core::timestamp::TimeStamp;

#[test]
fn test_is_user_key_eq() {
    // make a short name to keep format for the test.
    fn eq(a: &[u8], b: &[u8]) -> bool {
        Key::is_user_key_eq(a, b)
    }
    assert_eq!(false, eq(b"", b""));
    assert_eq!(false, eq(b"12345", b""));
    assert_eq!(true, eq(b"12345678", b""));
    assert_eq!(true, eq(b"x12345678", b"x"));
    assert_eq!(false, eq(b"x12345", b"x"));
    // user key len == 3
    assert_eq!(true, eq(b"xyz12345678", b"xyz"));
    assert_eq!(true, eq(b"xyz________", b"xyz"));
    assert_eq!(false, eq(b"xyy12345678", b"xyz"));
    assert_eq!(false, eq(b"yyz12345678", b"xyz"));
    assert_eq!(false, eq(b"xyz12345678", b"xy"));
    assert_eq!(false, eq(b"xyy12345678", b"xy"));
    assert_eq!(false, eq(b"yyz12345678", b"xy"));
    // user key len == 7
    assert_eq!(true, eq(b"abcdefg12345678", b"abcdefg"));
    assert_eq!(true, eq(b"abcdefgzzzzzzzz", b"abcdefg"));
    assert_eq!(false, eq(b"abcdefg12345678", b"abcdef"));
    assert_eq!(false, eq(b"abcdefg12345678", b"bcdefg"));
    assert_eq!(false, eq(b"abcdefv12345678", b"abcdefg"));
    assert_eq!(false, eq(b"vbcdefg12345678", b"abcdefg"));
    assert_eq!(false, eq(b"abccefg12345678", b"abcdefg"));
    // user key len == 8
    assert_eq!(true, eq(b"abcdefgh12345678", b"abcdefgh"));
    assert_eq!(true, eq(b"abcdefghyyyyyyyy", b"abcdefgh"));
    assert_eq!(false, eq(b"abcdefgh12345678", b"abcdefg"));
    assert_eq!(false, eq(b"abcdefgh12345678", b"bcdefgh"));
    assert_eq!(false, eq(b"abcdefgz12345678", b"abcdefgh"));
    assert_eq!(false, eq(b"zbcdefgh12345678", b"abcdefgh"));
    assert_eq!(false, eq(b"abcddfgh12345678", b"abcdefgh"));
    // user key len == 9
    assert_eq!(true, eq(b"abcdefghi12345678", b"abcdefghi"));
    assert_eq!(true, eq(b"abcdefghixxxxxxxx", b"abcdefghi"));
    assert_eq!(false, eq(b"abcdefghi12345678", b"abcdefgh"));
    assert_eq!(false, eq(b"abcdefghi12345678", b"bcdefghi"));
    assert_eq!(false, eq(b"abcdefghy12345678", b"abcdefghi"));
    assert_eq!(false, eq(b"ybcdefghi12345678", b"abcdefghi"));
    assert_eq!(false, eq(b"abcddfghi12345678", b"abcdefghi"));
    // user key len == 11
    assert_eq!(true, eq(b"abcdefghijk87654321", b"abcdefghijk"));
    assert_eq!(true, eq(b"abcdefghijkabcdefgh", b"abcdefghijk"));
    assert_eq!(false, eq(b"abcdefghijk87654321", b"abcdefghij"));
    assert_eq!(false, eq(b"abcdefghijk87654321", b"bcdefghijk"));
    assert_eq!(false, eq(b"abcdefghijx87654321", b"abcdefghijk"));
    assert_eq!(false, eq(b"xbcdefghijk87654321", b"abcdefghijk"));
    assert_eq!(false, eq(b"abxdefghijk87654321", b"abcdefghijk"));
    assert_eq!(false, eq(b"axcdefghijk87654321", b"abcdefghijk"));
    assert_eq!(false, eq(b"abcdeffhijk87654321", b"abcdefghijk"));
}

#[test]
fn test_is_encoded_from() {
    for raw_len in 0..=24u8 {
        let raw: Vec<u8> = (0..raw_len).collect();
        let encoded = Key::from_raw(&raw);
        assert!(encoded.is_encoded_from(&raw));

        let encoded_len = encoded.as_encoded().len();

        // Should return false if we modify one byte in raw
        for i in 0..raw.len() {
            let mut invalid_raw = raw.clone();
            invalid_raw[i] = raw[i].wrapping_add(1);
            assert!(!encoded.is_encoded_from(&invalid_raw));
        }

        // Should return false if we modify one byte in encoded
        for i in 0..encoded_len {
            let mut invalid_encoded = encoded.as_encoded().clone();
            invalid_encoded[i] = invalid_encoded[i].wrapping_add(1);
            assert!(!Key::from_encoded(invalid_encoded).is_encoded_from(&raw));
        }

        // Should return false if encoded length is not a multiple of 9
        let mut invalid_encoded = encoded.as_encoded().clone();
        invalid_encoded.pop();
        assert!(!Key::from_encoded(invalid_encoded).is_encoded_from(&raw));

        // Should return false if encoded has less or more chunks
        let shorter_encoded = Key::from_encoded_slice(&encoded.as_encoded()[..encoded_len - 9]);
        assert!(!shorter_encoded.is_encoded_from(&raw));
        let mut longer_encoded = encoded.as_encoded().clone();
        longer_encoded.extend(&[0, 0, 0, 0, 0, 0, 0, 0, 0xFF]);
        let longer_encoded = Key::from_encoded(longer_encoded);
        assert!(!longer_encoded.is_encoded_from(&raw));

        // Should return false if raw is longer or shorter
        if !raw.is_empty() {
            let shorter_raw = &raw[..raw.len() - 1];
            assert!(!encoded.is_encoded_from(shorter_raw));
        }
        let mut longer_raw = raw.to_vec();
        longer_raw.push(0);
        assert!(!encoded.is_encoded_from(&longer_raw));
    }
}

#[test]
fn test_encode_exact_bytes() {
    // One byte pads to a full group with seven zero bytes and the
    // marker 0xF7 + 1.
    let k = Key::from_raw(b"k");
    assert_eq!(k.as_encoded().as_slice(), &[b'k', 0, 0, 0, 0, 0, 0, 0, 0xF8]);
    // Eight bytes produce a full group with marker 0xFF plus an empty
    // terminal group with marker 0xF7.
    let k8 = Key::from_raw(b"abcdefgh");
    let mut expect = b"abcdefgh".to_vec();
    expect.push(0xFF);
    expect.extend(&[0, 0, 0, 0, 0, 0, 0, 0, 0xF7]);
    assert_eq!(k8.as_encoded().as_slice(), expect.as_slice());
}

#[test]
fn test_raw_roundtrip() {
    for raw in [&b""[..], b"a", b"abcdefg", b"abcdefgh", b"abcdefghi", b"0123456789abcdefg"] {
        let key = Key::from_raw(raw);
        assert_eq!(key.to_raw().unwrap(), raw.to_vec());
        assert_eq!(key.into_raw().unwrap(), raw.to_vec());
    }
}

#[test]
fn test_decode_rejects_malformed() {
    // Too short for one group.
    assert_eq!(Key::from_encoded(vec![1, 2, 3]).into_raw(), Err(CodecError::KeyLength));
    // Bad marker.
    let mut enc = Key::from_raw(b"x").into_encoded();
    enc[8] = 0x10;
    assert_eq!(Key::from_encoded(enc).into_raw(), Err(CodecError::KeyPadding));
    // Nonzero padding.
    let mut enc = Key::from_raw(b"x").into_encoded();
    enc[5] = 7;
    assert_eq!(Key::from_encoded(enc).into_raw(), Err(CodecError::KeyPadding));
}

#[test]
fn test_append_ts_roundtrip() {
    let key = Key::from_raw(b"key").append_ts(TimeStamp::new(7));
    assert_eq!(key.decode_ts().unwrap(), TimeStamp::new(7));
    let trimmed = key.truncate_ts().unwrap();
    assert_eq!(trimmed.into_raw().unwrap(), b"key".to_vec());
    // The suffix is the big-endian complement, so larger timestamps
    // sort first.
    let a = Key::from_raw(b"k").append_ts(TimeStamp::new(1)).into_encoded();
    let b = Key::from_raw(b"k").append_ts(TimeStamp::new(2)).into_encoded();
    assert!(b < a);
    assert_eq!(&a[a.len() - 8..], &[0xFF, 0xFF, 0xFF, 0xFF, 0xFF, 0xFF, 0xFF, 0xFE]);
}

#[test]
fn test_split_on_ts() {
    let enc = Key::from_raw(b"user").append_ts(TimeStamp::new(42)).into_encoded();
    let (user, ts) = Key::split_on_ts_for(&enc).unwrap();
    assert_eq!(ts, TimeStamp::new(42));
    assert_eq!(user, Key::from_raw(b"user").as_encoded().as_slice());
    assert_eq!(Key::truncate_ts_for(&enc).unwrap(), user);
    assert_eq!(Key::decode_ts_from(&enc).unwrap(), TimeStamp::new(42));
    assert_eq!(Key::split_on_ts_for(b"short"), Err(CodecError::KeyLength));
}

#[test]
fn test_gen_hash_matches_collaborator() {
    let key = Key::from_raw(b"tidb-row-key");
    assert_eq!(key.gen_hash(), farmhash::fingerprint64(b"tidb-row-key"));
}

#[test]
fn test_is_short_value() {
    assert!(is_short_value(&[0u8; 255]));
    assert!(!is_short_value(&[0u8; 256]));
}

#[test]
fn test_timestamp_parts() {
    let ts = TimeStamp::compose(5, 3);
    assert_eq!(ts.physical(), 5);
    assert_eq!(ts.into_inner(), (5u64 << 18) | 3);
    assert!(!ts.is_zero());
    assert!(TimeStamp::zero().is_zero());
}
