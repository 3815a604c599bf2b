//! Random bytes, SHA-256 and HMAC-SHA-256.
use crate::codec;
use ring::rand::SecureRandom;
use vstd::prelude::*;

verus! {

/// The error of `ring`, which carries no details.
#[verifier::external_type_specification]
#[verifier::external_body]
pub struct ExUnspecified(ring::error::Unspecified);

/// The SHA-256 digest of `data`.
pub uninterp spec fn sha256(data: Seq<u8>) -> Seq<u8>;

/// The HMAC-SHA-256 tag of `data` under the key `secret`.
pub uninterp spec fn hmac_sha256(secret: Seq<u8>, data: Seq<u8>) -> Seq<u8>;

/// `SecureRandom::fill` of `ring`'s `SystemRandom`, on a buffer of `len` bytes. Nothing is known
/// of the bytes but their number.
#[verifier::external_body]
pub(crate) fn random_bytes(len: usize) -> (r: Result<Vec<u8>, ring::error::Unspecified>)
    requires
        len <= 0xffff,
    ensures
        r matches Ok(bytes) ==> bytes@.len() == len,
{
    let mut bytes = vec![0_u8; len];
    ring::rand::SystemRandom::new().fill(&mut bytes)?;
    Ok(bytes)
}

/// The random bytes that were drawn; nothing where the generator failed.
pub open spec fn bytes_of(r: Result<Vec<u8>, ring::error::Unspecified>) -> Option<Seq<u8>> {
    match r {
        Ok(bytes) => Some(bytes@),
        Err(_) => None,
    }
}

/// `drawn` is what the system's generator gave when it was asked for `len` random bytes; nothing
/// where it failed.
pub closed spec fn was_drawn(len: usize, drawn: Option<Seq<u8>>) -> bool {
    exists|r: Result<Vec<u8>, ring::error::Unspecified>| #[trigger]
        call_ensures(random_bytes, (len,), r) && drawn == bytes_of(r)
}

/// Draws `len` random bytes.
pub(crate) fn draw(len: usize) -> (r: Result<Vec<u8>, ring::error::Unspecified>)
    requires
        len <= 0xffff,
    ensures
        r matches Ok(bytes) ==> bytes@.len() == len,
        was_drawn(len, bytes_of(r)),
{
    random_bytes(len)
}

/// `ring`'s `digest::digest` with `SHA256`.
#[verifier::external_body]
pub(crate) fn sha256_digest(data: &[u8]) -> (r: Vec<u8>)
    requires
        codec::within_limits(data@.len()),
    ensures
        r@ == sha256(data@),
        r@.len() == 32,
{
    ring::digest::digest(&ring::digest::SHA256, data).as_ref().to_vec()
}

/// `ring`'s `hmac::sign` with an `HMAC_SHA256` key made of `secret`.
#[verifier::external_body]
pub(crate) fn hmac_sign(secret: &[u8], data: &[u8]) -> (r: Vec<u8>)
    requires
        codec::within_limits(secret@.len()),
        codec::within_limits(data@.len()),
    ensures
        r@ == hmac_sha256(secret@, data@),
        r@.len() == 32,
{
    let key = ring::hmac::Key::new(ring::hmac::HMAC_SHA256, secret);
    ring::hmac::sign(&key, data).as_ref().to_vec()
}

/// `ring`'s `hmac::verify` with an `HMAC_SHA256` key made of `secret`: it succeeds exactly when
/// `tag` is the tag of `data`.
#[verifier::external_body]
pub(crate) fn hmac_verify(secret: &[u8], data: &[u8], tag: &[u8]) -> (r: Result<
    (),
    ring::error::Unspecified,
>)
    requires
        codec::within_limits(secret@.len()),
        codec::within_limits(data@.len()),
    ensures
        r is Ok <==> tag@ == hmac_sha256(secret@, data@),
{
    let key = ring::hmac::Key::new(ring::hmac::HMAC_SHA256, secret);
    ring::hmac::verify(&key, data, tag)
}

/// What was drawn is what the system's generator gave for that number of bytes, and has as many.
pub(crate) proof fn law_what_is_drawn_comes_from_the_generator(len: usize, drawn: Option<Seq<u8>>)
    requires
        was_drawn(len, drawn),
    ensures
        exists|r: Result<Vec<u8>, ring::error::Unspecified>| #[trigger]
            call_ensures(random_bytes, (len,), r) && match r {
                Ok(bytes) => drawn == Some(bytes@),
                Err(_) => drawn is None,
            },
        drawn matches Some(bytes) ==> bytes.len() == len,
{
}

} // verus!
