//! Calls into the cryptographic and encoding crates (sha2, sha3,
//! ed25519-dalek, hex, bs58, getrandom). Each trusted item names what the
//! outside function returns, or states it where a few lines can.
use vstd::prelude::*;
use sha2::Digest;
use ed25519_dalek::Signer;
use ed25519_dalek::Verifier;

verus! {

/// The SHA-256 digest of `data` (32 bytes).
pub uninterp spec fn sha256_spec(data: Seq<u8>) -> Seq<u8>;

/// The Keccak-256 digest of `data` (32 bytes).
pub uninterp spec fn keccak256_spec(data: Seq<u8>) -> Seq<u8>;

/// The Ed25519 public key derived from a 32-byte secret seed.
pub uninterp spec fn ed25519_public_key_spec(seed: Seq<u8>) -> Seq<u8>;

/// The (deterministic, RFC 8032) Ed25519 signature of `msg` under `seed`.
pub uninterp spec fn ed25519_signature_spec(seed: Seq<u8>, msg: Seq<u8>) -> Seq<u8>;

/// Whether `sig` is a valid Ed25519 signature of `msg` under public key `pk`.
pub uninterp spec fn ed25519_valid_spec(pk: Seq<u8>, msg: Seq<u8>, sig: Seq<u8>) -> bool;

/// The value of a hex digit of either case, if `c` is one.
pub open spec fn hex_digit_value(c: char) -> Option<u8> {
    if '0' <= c <= '9' {
        Some((c as u8 - '0' as u8) as u8)
    } else if 'a' <= c <= 'f' {
        Some((c as u8 - 'a' as u8 + 10) as u8)
    } else if 'A' <= c <= 'F' {
        Some((c as u8 - 'A' as u8 + 10) as u8)
    } else {
        None
    }
}

/// What `hex::decode` gives for the characters `s`: an even number of hex
/// digits (either case) decode to one byte per pair, high digit first;
/// anything else is an error (None).
pub open spec fn hex_decode_spec(s: Seq<char>) -> Option<Seq<u8>> {
    if s.len() % 2 == 1 || exists|i: int| 0 <= i < s.len() && #[trigger] hex_digit_value(s[i]) is None {
        None
    } else {
        Some(Seq::new(s.len() / 2, |i: int|
            (hex_digit_value(s[2 * i]).unwrap() * 16 + hex_digit_value(s[2 * i + 1]).unwrap()) as u8))
    }
}

/// The Base58 (Bitcoin alphabet) text of `data`.
pub uninterp spec fn bs58_encode_spec(data: Seq<u8>) -> Seq<char>;

/// What Base58 decoding gives for `s`: the bytes, or none on an error.
pub uninterp spec fn bs58_decode_spec(s: Seq<char>) -> Option<Seq<u8>>;

/// Lower-case hex digit for a value below 16.
pub open spec fn hex_digit(n: u8) -> char {
    if n < 10 {
        (('0' as u8) + n) as char
    } else {
        (('a' as u8) + n - 10) as char
    }
}

/// Lower-case hex text of `data`: two digits per byte, high nibble first.
pub open spec fn hex_lower(data: Seq<u8>) -> Seq<char>
    decreases data.len(),
{
    if data.len() == 0 {
        Seq::empty()
    } else {
        seq![hex_digit(data[0] / 16), hex_digit(data[0] % 16)] + hex_lower(data.drop_first())
    }
}

/// `sha2::Sha256`: update with `data`, finalize; the 32-byte digest.
#[verifier::external_body]
pub(crate) fn sha256(data: &[u8]) -> (r: [u8; 32])
    ensures
        r@ == sha256_spec(data@),
{
    let mut hasher = sha2::Sha256::new();
    hasher.update(data);
    let out = hasher.finalize();
    let mut r = [0u8; 32];
    r.copy_from_slice(&out);
    r
}

/// `sha3::Keccak256::digest`: the 32-byte Keccak-256 digest of `data`.
#[verifier::external_body]
pub(crate) fn keccak256(data: &[u8]) -> (r: [u8; 32])
    ensures
        r@ == keccak256_spec(data@),
{
    let out = <sha3::Keccak256 as sha3::Digest>::digest(data);
    let mut r = [0u8; 32];
    r.copy_from_slice(&out);
    r
}

/// `ed25519_dalek::SigningKey::from_bytes(seed).verifying_key().to_bytes()`.
#[verifier::external_body]
pub(crate) fn ed25519_public_key(seed: &[u8; 32]) -> (r: [u8; 32])
    ensures
        r@ == ed25519_public_key_spec(seed@),
{
    ed25519_dalek::SigningKey::from_bytes(seed).verifying_key().to_bytes()
}

/// `ed25519_dalek::SigningKey::from_bytes(seed).sign(msg).to_bytes()`.
/// Claims that the signature verifies under the public key of the same seed,
/// as the crate's documentation of signing and verifying promises.
#[verifier::external_body]
pub(crate) fn ed25519_sign(seed: &[u8; 32], msg: &[u8]) -> (r: [u8; 64])
    ensures
        r@ == ed25519_signature_spec(seed@, msg@),
        ed25519_valid_spec(ed25519_public_key_spec(seed@), msg@, r@),
{
    ed25519_dalek::SigningKey::from_bytes(seed).sign(msg).to_bytes()
}

/// `ed25519_dalek::VerifyingKey::from_bytes(pk)` then `verify(msg, sig)`;
/// false when the key bytes are not a valid point or the check fails.
#[verifier::external_body]
pub(crate) fn ed25519_verify(pk: &[u8; 32], msg: &[u8], sig: &[u8; 64]) -> (r: bool)
    ensures
        r == ed25519_valid_spec(pk@, msg@, sig@),
{
    match ed25519_dalek::VerifyingKey::from_bytes(pk) {
        Ok(vk) => vk.verify(msg, &ed25519_dalek::Signature::from_bytes(sig)).is_ok(),
        Err(_) => false,
    }
}

/// `hex::encode`: lower-case hex text, two digits per byte.
#[verifier::external_body]
pub(crate) fn hex_encode(data: &[u8]) -> (r: String)
    ensures
        r@ == hex_lower(data@),
{
    hex::encode(data)
}

/// `hex::decode`: the bytes, or the crate's error message.
#[verifier::external_body]
pub(crate) fn hex_decode(s: &str) -> (r: Result<Vec<u8>, String>)
    ensures
        r is Ok <==> hex_decode_spec(s@) is Some,
        r matches Ok(v) ==> v@ == hex_decode_spec(s@).unwrap(),
{
    match hex::decode(s) {
        Ok(v) => Ok(v),
        Err(e) => Err(e.to_string()),
    }
}

/// `bs58::encode(data).into_string()`.
#[verifier::external_body]
pub(crate) fn bs58_encode(data: &[u8]) -> (r: String)
    ensures
        r@ == bs58_encode_spec(data@),
{
    bs58::encode(data).into_string()
}

/// `bs58::decode(s).into_vec()`: the bytes, or the crate's error message.
#[verifier::external_body]
pub(crate) fn bs58_decode(s: &str) -> (r: Result<Vec<u8>, String>)
    ensures
        r is Ok <==> bs58_decode_spec(s@) is Some,
        r matches Ok(v) ==> v@ == bs58_decode_spec(s@).unwrap(),
{
    match bs58::decode(s).into_vec() {
        Ok(v) => Ok(v),
        Err(e) => Err(e.to_string()),
    }
}

} // verus!
