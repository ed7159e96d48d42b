use vstd::prelude::*;
use blake2::Digest;

verus! {

/// What the ed25519 verifier says of `signature` over `message` under
/// `public_key`.
pub uninterp spec fn ed25519_valid(message: Seq<u8>, public_key: Seq<u8>, signature: Seq<u8>) -> bool;

/// The canonical encoding of the signed tuple `(path, image, timestamp)`
/// (the path as text, the image as a byte string); empty where the
/// encoder fails.
pub uninterp spec fn signing_message(path: Seq<u8>, image: Seq<u8>, timestamp: u64) -> Seq<u8>;

/// The 32-byte BLAKE2b digest of `data`.
pub uninterp spec fn blake2b_256(data: Seq<u8>) -> Seq<u8>;

/// Lower-case hex digit of a nibble.
pub open spec fn hex_digit(n: u8) -> u8 {
    if n < 10 {
        (0x30 + n) as u8
    } else {
        (0x61 + n - 10) as u8
    }
}

/// Two lower-case hex digits per byte, high nibble first.
pub open spec fn hex_of(b: Seq<u8>) -> Seq<u8>
    decreases b.len(),
{
    if b.len() == 0 {
        Seq::empty()
    } else {
        hex_of(b.drop_last()) + seq![hex_digit(b.last() / 16), hex_digit(b.last() % 16)]
    }
}

/// Relies on rust-crypto's `ed25519::verify`, which reads 64 signature
/// bytes and 32 key bytes and answers whether the signature is valid.
#[verifier::external_body]
pub(crate) fn ed25519_verify(message: &[u8], public_key: &[u8], signature: &[u8]) -> (r: bool)
    requires
        public_key@.len() == 32,
        signature@.len() == 64,
    ensures
        r == ed25519_valid(message@, public_key@, signature@),
{
    crypto::ed25519::verify(message, public_key, signature)
}

/// Relies on `serde_cbor::to_vec` for the tuple `(path, image, timestamp)`,
/// which encodes as a function of its arguments alone.
#[verifier::external_body]
pub(crate) fn encode_signing_message(path: &[u8], image: &[u8], timestamp: u64) -> (r: Vec<u8>)
    ensures
        r@ == signing_message(path@, image@, timestamp),
{
    let text = String::from_utf8_lossy(path);
    match serde_cbor::to_vec(&(text, serde_bytes::Bytes::new(image), timestamp)) {
        Ok(v) => v,
        Err(_) => Vec::new(),
    }
}

/// Relies on `blake2::Blake2b<U32>::digest`: a 32-byte digest of `data`.
#[verifier::external_body]
pub(crate) fn blake2b_digest(data: &[u8]) -> (r: Vec<u8>)
    ensures
        r@ == blake2b_256(data@),
        r@.len() == 32,
{
    blake2::Blake2b::<blake2::digest::consts::U32>::digest(data).to_vec()
}

/// Relies on `hex::encode`: two lower-case hex digits for each byte.
#[verifier::external_body]
pub(crate) fn hex_encode(data: &[u8]) -> (r: Vec<u8>)
    ensures
        r@ == hex_of(data@),
{
    hex::encode(data).into_bytes()
}

} // verus!
