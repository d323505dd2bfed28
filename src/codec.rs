use vstd::prelude::*;
use crate::primitives::{base64_decoding, base64_encoding, decode_base64, encode_base64};

verus! {

/// Why a base64 field of the coordinator's messages was refused.
#[derive(Clone, Copy, Debug, PartialEq, Eq, Structural)]
pub enum DecodeFailure {
    /// The text is not standard base64.
    InvalidBase64,
    /// The text decodes to a byte string of the wrong length.
    WrongLength,
}

/// The eight bytes of `n`, least significant first.
pub open spec fn le_bytes_spec(n: u64) -> Seq<u8> {
    seq![
        (n & 0xff) as u8,
        ((n >> 8u64) & 0xff) as u8,
        ((n >> 16u64) & 0xff) as u8,
        ((n >> 24u64) & 0xff) as u8,
        ((n >> 32u64) & 0xff) as u8,
        ((n >> 40u64) & 0xff) as u8,
        ((n >> 48u64) & 0xff) as u8,
        ((n >> 56u64) & 0xff) as u8,
    ]
}

/// What decoding `text` into exactly `n` bytes gives.
pub open spec fn decode_exact(text: Seq<char>, n: nat) -> Result<Seq<u8>, DecodeFailure> {
    match base64_decoding(text) {
        None => Err(DecodeFailure::InvalidBase64),
        Some(b) => if b.len() == n {
            Ok(b)
        } else {
            Err(DecodeFailure::WrongLength)
        },
    }
}

/// The little-endian bytes of a nonce, as the solver and the coordinator take them.
pub fn le_bytes(n: u64) -> (r: [u8; 8])
    ensures
        r@ == le_bytes_spec(n),
{
    let r: [u8; 8] = [
        (n & 0xff) as u8,
        ((n >> 8u64) & 0xff) as u8,
        ((n >> 16u64) & 0xff) as u8,
        ((n >> 24u64) & 0xff) as u8,
        ((n >> 32u64) & 0xff) as u8,
        ((n >> 40u64) & 0xff) as u8,
        ((n >> 48u64) & 0xff) as u8,
        ((n >> 56u64) & 0xff) as u8,
    ];
    assert(r@ =~= le_bytes_spec(n));
    r
}

/// Base64 text of a 32-byte challenge.
pub fn array_to_base64(data: &[u8; 32]) -> (r: String)
    ensures
        r@ == base64_encoding(data@),
{
    encode_base64(data)
}

/// Base64 text of a 16-byte digest.
pub fn u8_16_to_base64(data: [u8; 16]) -> (r: String)
    ensures
        r@ == base64_encoding(data@),
{
    encode_base64(&data)
}

/// Base64 text of 8 nonce bytes.
pub fn u8_8_to_base64(data: [u8; 8]) -> (r: String)
    ensures
        r@ == base64_encoding(data@),
{
    encode_base64(&data)
}

/// Decodes base64 text that must hold exactly 32 bytes.
pub fn base64_to_array(base64_string: &str) -> (r: Result<[u8; 32], DecodeFailure>)
    ensures
        match r {
            Ok(a) => decode_exact(base64_string@, 32) == Ok::<Seq<u8>, DecodeFailure>(a@),
            Err(e) => decode_exact(base64_string@, 32) == Err::<Seq<u8>, DecodeFailure>(e),
        },
{
    let decoded = match decode_base64(base64_string) {
        Some(d) => d,
        None => return Err(DecodeFailure::InvalidBase64),
    };
    if decoded.len() != 32 {
        return Err(DecodeFailure::WrongLength);
    }
    let mut array = [0u8; 32];
    let mut i: usize = 0;
    while i < 32
        invariant
            decoded@.len() == 32,
            i <= 32,
            forall|k: int| 0 <= k < i ==> array@[k] == decoded@[k],
        decreases 32 - i,
    {
        array[i] = decoded[i];
        i = i + 1;
    }
    assert(array@ =~= decoded@);
    Ok(array)
}

/// Decodes base64 text that must hold exactly 16 bytes.
pub fn base64_to_u8_16(encoded: &str) -> (r: Result<[u8; 16], DecodeFailure>)
    ensures
        match r {
            Ok(a) => decode_exact(encoded@, 16) == Ok::<Seq<u8>, DecodeFailure>(a@),
            Err(e) => decode_exact(encoded@, 16) == Err::<Seq<u8>, DecodeFailure>(e),
        },
{
    let decoded = match decode_base64(encoded) {
        Some(d) => d,
        None => return Err(DecodeFailure::InvalidBase64),
    };
    if decoded.len() != 16 {
        return Err(DecodeFailure::WrongLength);
    }
    let mut array = [0u8; 16];
    let mut i: usize = 0;
    while i < 16
        invariant
            decoded@.len() == 16,
            i <= 16,
            forall|k: int| 0 <= k < i ==> array@[k] == decoded@[k],
        decreases 16 - i,
    {
        array[i] = decoded[i];
        i = i + 1;
    }
    assert(array@ =~= decoded@);
    Ok(array)
}

/// Decodes base64 text that must hold exactly 8 bytes.
pub fn base64_to_u8_8(encoded: &str) -> (r: Result<[u8; 8], DecodeFailure>)
    ensures
        match r {
            Ok(a) => decode_exact(encoded@, 8) == Ok::<Seq<u8>, DecodeFailure>(a@),
            Err(e) => decode_exact(encoded@, 8) == Err::<Seq<u8>, DecodeFailure>(e),
        },
{
    let decoded = match decode_base64(encoded) {
        Some(d) => d,
        None => return Err(DecodeFailure::InvalidBase64),
    };
    if decoded.len() != 8 {
        return Err(DecodeFailure::WrongLength);
    }
    let mut array = [0u8; 8];
    let mut i: usize = 0;
    while i < 8
        invariant
            decoded@.len() == 8,
            i <= 8,
            forall|k: int| 0 <= k < i ==> array@[k] == decoded@[k],
        decreases 8 - i,
    {
        array[i] = decoded[i];
        i = i + 1;
    }
    assert(array@ =~= decoded@);
    Ok(array)
}

} // verus!
