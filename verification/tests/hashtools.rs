use witgenstein::hashtools::{
    base64_decode, base64_encode, base64url_encode, crc32, crc32_compute, decode, encode,
    fnv1a, fnv1a_bytes, hash, hash_stream, hex_decode, hex_encode, hex_val, base64_val,
    verify_crc32, Algorithm, Encoding, HashConfig, HashError, Hasher,
};

// -- FNV-1a ---------------------------------------------------------

#[test]
fn fnv1a_empty_input() {
    assert_eq!(fnv1a(vec![]), 0xcbf2_9ce4_8422_2325);
}

#[test]
fn fnv1a_hello() {
    let h = fnv1a(b"hello".to_vec());
    assert_ne!(h, 0);
    assert_eq!(h, fnv1a(b"hello".to_vec()));
}

#[test]
fn fnv1a_different_inputs_differ() {
    assert_ne!(fnv1a(b"abc".to_vec()), fnv1a(b"abd".to_vec()));
}

#[test]
fn fnv1a_known_value() {
    assert_eq!(fnv1a(b"a".to_vec()), 0xaf63_dc4c_8601_ec8c);
}

// -- Hex encode / decode -------------------------------------------

#[test]
fn hex_roundtrip() {
    let data = vec![0xde, 0xad, 0xbe, 0xef];
    let encoded = hex_encode(&data);
    assert_eq!(encoded, "deadbeef");
    assert_eq!(hex_decode(&encoded).unwrap(), data);
}

#[test]
fn hex_decode_odd_length() {
    assert_eq!(hex_decode("abc"), Err(HashError::InvalidData));
}

#[test]
fn hex_decode_invalid_char() {
    assert_eq!(hex_decode("zz"), Err(HashError::InvalidData));
}

#[test]
fn hex_empty() {
    assert_eq!(hex_encode(&[]), "");
    assert_eq!(hex_decode("").unwrap(), vec![]);
}

#[test]
fn hex_decode_upper_case() {
    assert_eq!(hex_decode("CAFE").unwrap(), vec![0xca, 0xfe]);
    assert_eq!(hex_val(b'F'), Some(15));
    assert_eq!(hex_val(b'g'), None);
}

#[test]
fn hex_decode_non_ascii_is_invalid() {
    assert_eq!(hex_decode("é"), Err(HashError::InvalidData));
}

// -- Base64 encode / decode ----------------------------------------

#[test]
fn base64_roundtrip() {
    let data = b"Hello, world!".to_vec();
    let encoded = base64_encode(&data);
    assert_eq!(encoded, "SGVsbG8sIHdvcmxkIQ==");
    assert_eq!(base64_decode(&encoded).unwrap(), data);
}

#[test]
fn base64_no_padding() {
    let data = b"abc".to_vec();
    let encoded = base64_encode(&data);
    assert!(!encoded.contains('=') || encoded.ends_with('='));
    assert_eq!(base64_decode(&encoded).unwrap(), data);
}

#[test]
fn base64url_roundtrip() {
    let data = vec![0xff, 0xfe, 0xfd];
    let encoded = base64url_encode(&data);
    assert!(!encoded.contains('+'));
    assert!(!encoded.contains('/'));
    assert!(!encoded.contains('='));
    assert_eq!(base64_decode(&encoded).unwrap(), data);
}

#[test]
fn base64_empty() {
    assert_eq!(base64_encode(&[]), "");
    assert_eq!(base64_decode("").unwrap(), vec![]);
}

#[test]
fn base64url_unpadded_lengths() {
    assert_eq!(base64url_encode(b"hi"), "aGk");
    assert_eq!(base64url_encode(b"h"), "aA");
    assert_eq!(base64_decode("aA").unwrap(), b"h".to_vec());
    assert_eq!(base64url_encode(&[0xfb, 0xff]), "-_8");
}

#[test]
fn base64_decode_errors() {
    assert_eq!(base64_decode("a"), Err(HashError::InvalidData));
    assert_eq!(base64_decode("ab!d"), Err(HashError::InvalidData));
    assert_eq!(base64_val(b'!'), Err(HashError::InvalidData));
    assert_eq!(base64_val(b'/'), Ok(63));
}

// -- CRC-32 ---------------------------------------------------------

#[test]
fn crc32_known_value() {
    assert_eq!(crc32(b"123456789".to_vec()), 0xCBF4_3926);
}

#[test]
fn crc32_empty() {
    assert_eq!(crc32(vec![]), 0x0000_0000);
}

#[test]
fn crc32_compute_matches_crc32() {
    assert_eq!(crc32_compute(b"hello"), crc32(b"hello".to_vec()));
}

#[test]
fn verify_crc32_correct() {
    let data = b"hello".to_vec();
    let checksum = crc32(data.clone());
    assert!(verify_crc32(data, checksum));
}

#[test]
fn verify_crc32_incorrect() {
    assert!(!verify_crc32(b"hello".to_vec(), 0));
}

// -- encode / decode free functions ---------------------------------

#[test]
fn encode_hex() {
    assert_eq!(encode(vec![0xca, 0xfe], Encoding::Hex), "cafe");
}

#[test]
fn decode_hex() {
    assert_eq!(
        decode("cafe".into(), Encoding::Hex).unwrap(),
        vec![0xca, 0xfe]
    );
}

#[test]
fn decode_hex_invalid() {
    assert!(decode("xyz".into(), Encoding::Hex).is_err());
}

#[test]
fn encode_base64() {
    assert_eq!(encode(b"hi".to_vec(), Encoding::Base64), "aGk=");
}

#[test]
fn decode_base64() {
    assert_eq!(
        decode("aGk=".into(), Encoding::Base64).unwrap(),
        b"hi".to_vec()
    );
}

#[test]
fn encode_base64url() {
    let data = vec![0xff, 0xfe];
    let encoded = encode(data.clone(), Encoding::Base64Url);
    assert!(!encoded.contains('+'));
    assert!(!encoded.contains('/'));
}

// -- Hasher resource -----------------------------------------------

#[test]
fn hasher_update_and_finalize() {
    let mut h = Hasher::new(Algorithm::Sha256);
    h.update(b"hello".to_vec());
    assert_eq!(h.bytes_written(), 5);

    let output = h.finalize();
    assert!(!output.hex.is_empty());
    assert_eq!(output.bytes.len(), 8);
}

#[test]
fn hasher_incremental_equals_oneshot() {
    let mut h = Hasher::new(Algorithm::Blake3);
    h.update(b"hel".to_vec());
    h.update(b"lo".to_vec());
    let incremental = h.finalize();

    let oneshot = fnv1a_bytes(b"hello");
    assert_eq!(incremental.bytes, oneshot);
}

#[test]
fn hasher_reset() {
    let mut h = Hasher::new(Algorithm::Sha512);
    h.update(b"data".to_vec());
    h.reset();
    assert_eq!(h.bytes_written(), 0);

    let output = h.finalize();
    let basis_bytes = 0xcbf2_9ce4_8422_2325_u64.to_be_bytes().to_vec();
    assert_eq!(output.bytes, basis_bytes);
}

#[test]
fn hasher_empty_finalize() {
    let h = Hasher::new(Algorithm::Sha256);
    assert_eq!(h.bytes_written(), 0);
    let output = h.finalize();
    let basis_bytes = 0xcbf2_9ce4_8422_2325_u64.to_be_bytes().to_vec();
    assert_eq!(output.bytes, basis_bytes);
}

// -- hash free function --------------------------------------------

#[test]
fn hash_empty_returns_error() {
    let config = HashConfig {
        algorithm: Algorithm::Sha256,
        hmac_key: None,
    };
    let result = hash(vec![], config);
    assert_eq!(result.unwrap_err(), HashError::EmptyInput);
}

#[test]
fn hash_produces_output() {
    let config = HashConfig {
        algorithm: Algorithm::Sha256,
        hmac_key: None,
    };
    let result = hash(b"hello".to_vec(), config);
    let output = result.unwrap();
    assert!(!output.hex.is_empty());
    assert!(!output.bytes.is_empty());
}

#[test]
fn hash_deterministic() {
    let config1 = HashConfig {
        algorithm: Algorithm::Blake3,
        hmac_key: None,
    };
    let config2 = HashConfig {
        algorithm: Algorithm::Blake3,
        hmac_key: None,
    };
    let r1 = hash(b"data".to_vec(), config1).unwrap();
    let r2 = hash(b"data".to_vec(), config2).unwrap();
    assert_eq!(r1.hex, r2.hex);
    assert_eq!(r1.bytes, r2.bytes);
}

#[test]
fn hash_matches_fnv1a_hex() {
    let config = HashConfig { algorithm: Algorithm::Sha256, hmac_key: Some(vec![1, 2]) };
    let out = hash(b"a".to_vec(), config).unwrap();
    assert_eq!(out.hex, "af63dc4c8601ec8c");
    assert_eq!(out.bytes, fnv1a_bytes(b"a"));
}

#[test]
fn hash_stream_is_a_marker() {
    let _s = hash_stream(vec![vec![1u8]], Algorithm::Sha256);
}

#[test]
fn decode_of_encode_gives_the_bytes_back() {
    let samples: Vec<Vec<u8>> = vec![vec![], vec![0], vec![0xff, 0x00, 0x7f], b"hello, world".to_vec(), (0u8..=255).collect()];
    for data in samples {
        for enc in [Encoding::Hex, Encoding::Base64, Encoding::Base64Url] {
            let text = encode(data.clone(), enc);
            assert_eq!(decode(text, enc).unwrap(), data);
        }
    }
}

#[test]
fn a_checksum_verifies_its_own_data() {
    let data = b"123456789".to_vec();
    let c = crc32(data.clone());
    assert_eq!(c, 0xCBF4_3926);
    assert!(verify_crc32(data.clone(), c));
    assert!(!verify_crc32(data, c ^ 1));
}

#[test]
fn upper_case_hex_and_base64_strings_decode_back() {
    let d: Vec<u8> = vec![0x00, 0xab, 0xff, 0x10, 0x7e];
    assert_eq!(hex_decode(&hex_encode(&d).to_ascii_uppercase()), Ok(d.clone()));
    assert_eq!(base64_decode(&base64_encode(&d)), Ok(d.clone()));
    assert_eq!(base64_decode(&base64url_encode(&d)), Ok(d));
}
