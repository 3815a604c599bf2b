//! Base64 and UTF-8, as the authentication headers and the tokens use them.
use base64::engine::general_purpose::{STANDARD, URL_SAFE_NO_PAD};
use base64::Engine;
use vstd::prelude::*;
use vstd::utf8::*;

verus! {

/// The error of `base64`'s decoder.
#[verifier::external_type_specification]
#[verifier::external_body]
pub struct ExDecodeError(base64::DecodeError);

/// The error of `std::str::from_utf8`.
#[verifier::external_type_specification]
#[verifier::external_body]
pub struct ExUtf8Error(std::str::Utf8Error);

/// Input lengths that neither the encoders nor the digests overflow on.
pub open spec fn within_limits(len: nat) -> bool {
    len < 0x1000_0000_0000_0000 && 2 * len + 4 <= usize::MAX
}

/// The standard base64 text of `bytes`, padded.
pub uninterp spec fn base64_text(bytes: Seq<u8>) -> Seq<char>;

/// What the standard, padded base64 text `text` stands for, if it is one.
pub uninterp spec fn base64_bytes(text: Seq<char>) -> Option<Seq<u8>>;

/// The URL-safe base64 text of `bytes`, without padding.
pub uninterp spec fn base64url_text(bytes: Seq<u8>) -> Seq<char>;

/// What the URL-safe base64 text `text` without padding stands for, if it is one.
pub uninterp spec fn base64url_bytes(text: Seq<char>) -> Option<Seq<u8>>;

/// The characters of the URL-safe base64 alphabet.
pub open spec fn is_url_safe(c: char) -> bool {
    ||| 'A' <= c <= 'Z'
    ||| 'a' <= c <= 'z'
    ||| '0' <= c <= '9'
    ||| c == '-'
    ||| c == '_'
}

/// The characters of the standard base64 alphabet, and its padding.
pub open spec fn is_base64(c: char) -> bool {
    ||| 'A' <= c <= 'Z'
    ||| 'a' <= c <= 'z'
    ||| '0' <= c <= '9'
    ||| c == '+'
    ||| c == '/'
    ||| c == '='
}

/// How many characters unpadded base64 has for `len` bytes.
pub open spec fn base64url_len(len: nat) -> nat {
    len / 3 * 4 + (if len % 3 == 0 {
        0nat
    } else {
        len % 3 + 1
    })
}

/// `Engine::encode` of `base64`'s `STANDARD` engine. Its result is made of the standard alphabet
/// and its padding, and decodes to the input.
#[verifier::external_body]
pub(crate) fn base64_encode(bytes: &[u8]) -> (r: String)
    requires
        within_limits(bytes@.len()),
    ensures
        r@ == base64_text(bytes@),
        base64_bytes(r@) == Some(bytes@),
        forall|i: int| 0 <= i < r@.len() ==> is_base64(#[trigger] r@[i]),
{
    STANDARD.encode(bytes)
}

/// `Engine::decode` of `base64`'s `STANDARD` engine. It decodes at most three bytes of four
/// characters.
#[verifier::external_body]
pub(crate) fn base64_decode(text: &str) -> (r: Result<Vec<u8>, base64::DecodeError>)
    ensures
        match r {
            Ok(bytes) => base64_bytes(text@) == Some(bytes@) && 4 * bytes@.len() <= 3
                * text@.len(),
            Err(_) => base64_bytes(text@) is None,
        },
{
    STANDARD.decode(text)
}

/// `Engine::encode` of `base64`'s `URL_SAFE_NO_PAD` engine. Its result is made of the URL-safe
/// alphabet, has four characters for three bytes, and decodes to the input.
#[verifier::external_body]
pub(crate) fn base64url_encode(bytes: &[u8]) -> (r: String)
    requires
        within_limits(bytes@.len()),
    ensures
        r@ == base64url_text(bytes@),
        base64url_bytes(r@) == Some(bytes@),
        r@.len() == base64url_len(bytes@.len()),
        forall|i: int| 0 <= i < r@.len() ==> is_url_safe(#[trigger] r@[i]),
{
    URL_SAFE_NO_PAD.encode(bytes)
}

/// `Engine::decode` of `base64`'s `URL_SAFE_NO_PAD` engine. It decodes at most three bytes
/// of four characters.
#[verifier::external_body]
pub(crate) fn base64url_decode(text: &str) -> (r: Result<Vec<u8>, base64::DecodeError>)
    ensures
        match r {
            Ok(bytes) => base64url_bytes(text@) == Some(bytes@) && 4 * bytes@.len() <= 3
                * text@.len(),
            Err(_) => base64url_bytes(text@) is None,
        },
{
    URL_SAFE_NO_PAD.decode(text)
}

/// `std::str::from_utf8` gives the text that the bytes encode, and an error exactly when they
/// are not UTF-8.
pub assume_specification[ std::str::from_utf8 ](v: &[u8]) -> (r: Result<&str, std::str::Utf8Error>)
    ensures
        match r {
            Ok(s) => valid_utf8(v@) && s@ == decode_utf8(v@),
            Err(_) => !valid_utf8(v@),
        },
;

/// The text that `bytes` encode in UTF-8.
pub open spec fn utf8_text(bytes: Seq<u8>) -> Option<Seq<char>> {
    if valid_utf8(bytes) {
        Some(decode_utf8(bytes))
    } else {
        None
    }
}

/// The text that `bytes` encode in UTF-8.
pub fn utf8_string(bytes: &[u8]) -> (r: Option<String>)
    ensures
        match r {
            Some(s) => utf8_text(bytes@) == Some(s@),
            None => utf8_text(bytes@) is None,
        },
{
    match std::str::from_utf8(bytes) {
        Ok(s) => Some(s.to_owned()),
        Err(_) => None,
    }
}

/// The UTF-8 bytes of `s`.
pub fn utf8_bytes(s: &str) -> (r: &[u8])
    ensures
        r@ == encode_utf8(s@),
{
    broadcast use vstd::string::group_string_axioms;

    s.as_bytes()
}

/// UTF-8 takes at least a byte for each character.
pub proof fn lemma_utf8_len(chars: Seq<char>)
    ensures
        chars.len() <= encode_utf8(chars).len(),
    decreases chars.len(),
{
    if chars.len() > 0 {
        lemma_utf8_len(chars.drop_first());
    }
}

/// Texts whose UTF-8 bytes can be encoded and hashed.
pub open spec fn text_fits(s: Seq<char>) -> bool {
    within_limits(4 * s.len())
}

/// UTF-8 takes at most four bytes for each character.
pub proof fn lemma_utf8_bound(chars: Seq<char>)
    ensures
        encode_utf8(chars).len() <= 4 * chars.len(),
    decreases chars.len(),
{
    if chars.len() > 0 {
        lemma_utf8_bound(chars.drop_first());
    }
}

/// A part of a text takes no more bytes than the text.
pub proof fn lemma_utf8_prefix(chars: Seq<char>, n: int)
    requires
        0 <= n <= chars.len(),
    ensures
        encode_utf8(chars.take(n)).len() <= encode_utf8(chars).len(),
    decreases n,
{
    if n > 0 {
        lemma_utf8_prefix(chars.drop_first(), n - 1);
        assert(chars.take(n).drop_first() =~= chars.drop_first().take(n - 1));
    }
}

/// Appends `s` to `v`.
pub fn append_bytes(v: &mut Vec<u8>, s: &[u8])
    ensures
        final(v)@ == old(v)@ + s@,
{
    v.extend_from_slice(s);
    assert(v@ =~= old(v)@ + s@);
}

} // verus!
