use vstd::prelude::*;
use base64::Engine;
use rand::RngCore;

verus! {

/// The base64 text (standard alphabet, padded) of a byte sequence.
pub uninterp spec fn b64_of(bytes: Seq<u8>) -> Seq<char>;

/// What base64 decoding makes of a character sequence: the bytes it
/// denotes, or nothing when it is not valid base64.
pub uninterp spec fn b64_decode_of(text: Seq<char>) -> Option<Seq<u8>>;

/// The 32-byte digest of a byte sequence under the fixed one-way hash.
pub uninterp spec fn digest_of(bytes: Seq<u8>) -> Seq<u8>;

/// The error of the base64 crate, carried through unread.
#[verifier::external_type_specification]
#[verifier::external_body]
pub struct ExDecodeError(base64::DecodeError);

/// Relies on base64's STANDARD engine `encode`: the text depends on the
/// bytes alone, and decoding it with the same engine gives the bytes back.
#[verifier::external_body]
pub(crate) fn b64_encode(bytes: &[u8]) -> (r: String)
    ensures
        r@ == b64_of(bytes@),
        b64_decode_of(r@) == Some(bytes@),
{
    base64::engine::general_purpose::STANDARD.encode(bytes)
}

/// Relies on base64's STANDARD engine `decode`: it returns the denoted
/// bytes exactly on valid base64 input, and an error otherwise.
#[verifier::external_body]
pub(crate) fn b64_decode(text: &str) -> (r: Result<Vec<u8>, base64::DecodeError>)
    ensures
        match r {
            Ok(bytes) => b64_decode_of(text@) == Some(bytes@),
            Err(_) => b64_decode_of(text@) == None::<Seq<u8>>,
        },
{
    base64::engine::general_purpose::STANDARD.decode(text)
}

/// Relies on blake3::hash and Hash::as_bytes: a 256-bit digest that
/// depends on the input bytes alone.
#[verifier::external_body]
pub(crate) fn hash_digest(bytes: &[u8]) -> (r: Vec<u8>)
    ensures
        r@ == digest_of(bytes@),
        r@.len() == 32,
{
    blake3::hash(bytes).as_bytes().to_vec()
}

/// Relies on rand::thread_rng and RngCore::fill_bytes: `len`
/// cryptographically random bytes; nothing else is assumed of them.
#[verifier::external_body]
pub(crate) fn random_bytes(len: usize) -> (r: Vec<u8>)
    ensures
        r@.len() == len,
{
    let mut buf = vec![0u8; len];
    rand::thread_rng().fill_bytes(&mut buf);
    buf
}

/// The session id derived from a cookie value: the base64 text of the
/// digest of the bytes the cookie value denotes, or nothing when the
/// cookie value is not valid base64.
pub open spec fn id_of(cookie_value: Seq<char>) -> Option<Seq<char>> {
    match b64_decode_of(cookie_value) {
        Some(bytes) => Some(b64_of(digest_of(bytes))),
        None => None,
    }
}

/// Derives the session id for a cookie value.
pub fn derive_id(cookie_value: &str) -> (r: Result<String, base64::DecodeError>)
    ensures
        match r {
            Ok(id) => id_of(cookie_value@) == Some(id@),
            Err(_) => id_of(cookie_value@) is None,
        },
{
    match b64_decode(cookie_value) {
        Ok(bytes) => {
            let digest = hash_digest(bytes.as_slice());
            Ok(b64_encode(digest.as_slice()))
        },
        Err(e) => Err(e),
    }
}

/// The cookie value is the base64 text of some `len` bytes.
pub open spec fn encodes_secret_of_len(cookie_value: Seq<char>, len: nat) -> bool {
    exists|bytes: Seq<u8>|
        #![auto]
        bytes.len() == len && cookie_value == b64_of(bytes) && b64_decode_of(cookie_value) == Some(
            bytes,
        )
}

/// Generates a fresh secret: `len` random bytes, base64-encoded for
/// transport as a cookie value.  The derived id of the result is
/// always defined.
pub fn generate_secret(len: usize) -> (r: String)
    ensures
        id_of(r@) is Some,
        encodes_secret_of_len(r@, len as nat),
{
    let bytes = random_bytes(len);
    let r = b64_encode(bytes.as_slice());
    proof {
        assert(bytes@.len() == len && r@ == b64_of(bytes@) && b64_decode_of(r@) == Some(bytes@));
    }
    r
}

} // verus!
