//! Base64, signatures and random bytes, as far as access control needs them.

use vstd::prelude::*;
use base64::Engine;
use ring::rand::SecureRandom;

verus! {

/// What `base64::Engine::decode` of `URL_SAFE_NO_PAD` makes of a text: bytes, or the text of its
/// error.
pub uninterp spec fn base64url_bytes(text: Seq<char>) -> Result<Seq<u8>, Seq<char>>;

/// What `base64::Engine::encode` of `URL_SAFE_NO_PAD` makes of some bytes.
pub uninterp spec fn base64url_text(bytes: Seq<u8>) -> Seq<char>;

/// Whether `ring::hmac::verify` with HMAC-SHA256 accepts a tag.
pub uninterp spec fn hmac_sha256_accepts(secret: Seq<u8>, data: Seq<u8>, tag: Seq<u8>) -> bool;

/// Whether `ring::signature::RsaPublicKeyComponents::verify` with PKCS#1 and SHA-256 accepts a
/// signature.
pub uninterp spec fn rsa_sha256_accepts(
    n: Seq<u8>,
    e: Seq<u8>,
    data: Seq<u8>,
    signature: Seq<u8>,
) -> bool;

/// Whether `ring::signature::UnparsedPublicKey::verify` with ECDSA P-256 and SHA-256, in the fixed
/// form, accepts a signature.
pub uninterp spec fn ecdsa_p256_accepts(
    public_key: Seq<u8>,
    data: Seq<u8>,
    signature: Seq<u8>,
) -> bool;

/// The most bytes that SHA-256 takes in: their number of bits has to fit in 64 bits.
pub const MAX_DIGEST_INPUT: u64 = 0x1fff_ffff_ffff_ffff;

/// A character of the alphabet of URL-safe Base64.
pub open spec fn is_base64url_char(c: char) -> bool {
    'A' <= c <= 'Z' || 'a' <= c <= 'z' || '0' <= c <= '9' || c == '-' || c == '_'
}

/// What [`decode_base64url`] returned, as plain values.
pub open spec fn bytes_result(result: Result<Vec<u8>, String>) -> Result<Seq<u8>, Seq<char>> {
    match result {
        Ok(bytes) => Ok(bytes@),
        Err(message) => Err(message@),
    }
}

/// `base64::Engine::decode` of `URL_SAFE_NO_PAD`. The contract claims only that the result is a
/// function of the text.
#[verifier::external_body]
pub(crate) fn decode_base64url(text: &str) -> (res: Result<Vec<u8>, String>)
    ensures
        bytes_result(res) == base64url_bytes(text@),
{
    base64::engine::general_purpose::URL_SAFE_NO_PAD.decode(text).map_err(|err| err.to_string())
}

/// `base64::Engine::encode` of `URL_SAFE_NO_PAD`. The contract claims that the result is a function
/// of the bytes and is written in the alphabet of URL-safe Base64, without padding.
#[verifier::external_body]
pub(crate) fn encode_base64url(bytes: &[u8]) -> (res: String)
    requires
        bytes@.len() <= 0x1000_0000,
    ensures
        res@ == base64url_text(bytes@),
        forall|i: int| 0 <= i < res@.len() ==> is_base64url_char(#[trigger] res@[i]),
{
    base64::engine::general_purpose::URL_SAFE_NO_PAD.encode(bytes)
}

/// `ring::hmac::verify` with a key made by `ring::hmac::Key::new`, which panics on a secret that
/// SHA-256 cannot take in. The contract claims only that the verdict is a function of the arguments.
#[verifier::external_body]
pub(crate) fn verify_hmac_sha256(secret: &[u8], data: &[u8], tag: &[u8]) -> (res: bool)
    requires
        secret@.len() <= MAX_DIGEST_INPUT,
    ensures
        res == hmac_sha256_accepts(secret@, data@, tag@),
{
    ring::hmac::verify(&ring::hmac::Key::new(ring::hmac::HMAC_SHA256, secret), data, tag).is_ok()
}

/// `ring::signature::RsaPublicKeyComponents::verify` with `RSA_PKCS1_2048_8192_SHA256`, which panics
/// on data that SHA-256 cannot take in. The contract claims only that the verdict is a function of
/// the arguments.
#[verifier::external_body]
pub(crate) fn verify_rsa_sha256(n: &[u8], e: &[u8], data: &[u8], signature: &[u8]) -> (res: bool)
    requires
        data@.len() <= MAX_DIGEST_INPUT,
    ensures
        res == rsa_sha256_accepts(n@, e@, data@, signature@),
{
    ring::signature::RsaPublicKeyComponents { n, e }.verify(
        &ring::signature::RSA_PKCS1_2048_8192_SHA256,
        data,
        signature,
    ).is_ok()
}

/// `ring::signature::UnparsedPublicKey::verify` with `ECDSA_P256_SHA256_FIXED`, which panics on data
/// that SHA-256 cannot take in. The contract claims only that the verdict is a function of the
/// arguments.
#[verifier::external_body]
pub(crate) fn verify_ecdsa_p256(public_key: &[u8], data: &[u8], signature: &[u8]) -> (res: bool)
    requires
        data@.len() <= MAX_DIGEST_INPUT,
    ensures
        res == ecdsa_p256_accepts(public_key@, data@, signature@),
{
    ring::signature::UnparsedPublicKey::new(
        &ring::signature::ECDSA_P256_SHA256_FIXED,
        public_key,
    ).verify(data, signature).is_ok()
}

/// `ring::rand::SystemRandom::fill` on 32 bytes. Nothing is claimed of the bytes, nor of when it
/// fails.
#[verifier::external_body]
pub(crate) fn random_bytes() -> (res: Option<Vec<u8>>)
    ensures
        match res {
            Some(bytes) => bytes@.len() == 32,
            None => true,
        },
{
    let mut bytes = vec![0_u8; 32];
    ring::rand::SystemRandom::new().fill(&mut bytes).ok().map(|()| bytes)
}

} // verus!
