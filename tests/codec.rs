use pool_miner::codec::{
    array_to_base64, base64_to_array, base64_to_u8_16, base64_to_u8_8, le_bytes, u8_16_to_base64,
    u8_8_to_base64, DecodeFailure,
};

#[test]
fn le_bytes_least_significant_first() {
    assert_eq!(le_bytes(0x0102030405060708), [8, 7, 6, 5, 4, 3, 2, 1]);
    assert_eq!(le_bytes(0), [0; 8]);
    assert_eq!(le_bytes(u64::MAX), [255; 8]);
    assert_eq!(le_bytes(300), 300u64.to_le_bytes());
}

#[test]
fn encodes_nonce_bytes() {
    assert_eq!(u8_8_to_base64([1, 2, 3, 4, 5, 6, 7, 8]), "AQIDBAUGBwg=");
}

#[test]
fn encodes_digest_bytes() {
    assert_eq!(u8_16_to_base64([0; 16]), "AAAAAAAAAAAAAAAAAAAAAA==");
}

#[test]
fn challenge_round_trip() {
    let mut c = [0u8; 32];
    for (i, b) in c.iter_mut().enumerate() {
        *b = i as u8;
    }
    let text = array_to_base64(&c);
    assert_eq!(text, "AAECAwQFBgcICQoLDA0ODxAREhMUFRYXGBkaGxwdHh8=");
    assert_eq!(base64_to_array(&text), Ok(c));
}

#[test]
fn challenge_rejects_malformed_text() {
    assert_eq!(base64_to_array("not base64!"), Err(DecodeFailure::InvalidBase64));
}

#[test]
fn challenge_rejects_wrong_length() {
    assert_eq!(base64_to_array("AQIDBAUGBwg="), Err(DecodeFailure::WrongLength));
}

#[test]
fn fixed_length_decoders() {
    assert_eq!(base64_to_u8_8("AQIDBAUGBwg="), Ok([1, 2, 3, 4, 5, 6, 7, 8]));
    assert_eq!(base64_to_u8_8("AAAAAAAAAAAAAAAAAAAAAA=="), Err(DecodeFailure::WrongLength));
    assert_eq!(base64_to_u8_16("AAAAAAAAAAAAAAAAAAAAAA=="), Ok([0; 16]));
    assert_eq!(base64_to_u8_16("AQIDBAUGBwg="), Err(DecodeFailure::WrongLength));
    assert_eq!(base64_to_u8_16("%%%"), Err(DecodeFailure::InvalidBase64));
}
