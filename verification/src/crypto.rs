//! Digests, MACs, encodings and password-hash checks from outside crates,
//! with what their documentation promises, plus lowercase hex rendering.

use vstd::prelude::*;
use crate::text::{pair_views, push_char};
use hmac::Mac;
use sha2::Digest;
use base64::Engine;

verus! {

/// MD5 digest of a byte string (`md5::compute`).
pub uninterp spec fn md5_of(data: Seq<u8>) -> Seq<u8>;

/// SHA-256 digest of a byte string (`sha2::Sha256::digest`).
pub uninterp spec fn sha256_of(data: Seq<u8>) -> Seq<u8>;

/// HMAC-SHA256 tag of `msg` under `key` (`hmac::Hmac<Sha256>`).
pub uninterp spec fn hmac_sha256_of(key: Seq<u8>, msg: Seq<u8>) -> Seq<u8>;

/// HMAC-SHA384 tag of `msg` under `key` (`hmac::Hmac<Sha384>`).
pub uninterp spec fn hmac_sha384_of(key: Seq<u8>, msg: Seq<u8>) -> Seq<u8>;

/// URL-safe base64 without padding (`base64::engine::general_purpose::URL_SAFE_NO_PAD`).
pub uninterp spec fn base64_url_of(data: Seq<u8>) -> Seq<char>;

/// Standard padded base64 (`base64::engine::general_purpose::STANDARD`).
pub uninterp spec fn base64_std_of(data: Seq<u8>) -> Seq<char>;

/// Outcome of `bcrypt::verify(password, hash)`, `false` when the hash is malformed.
pub uninterp spec fn bcrypt_verifies(password: Seq<u8>, hash: Seq<char>) -> bool;

/// Decoded `(name, value)` pairs of `application/x-www-form-urlencoded`
/// bytes (`form_urlencoded::parse`).
pub uninterp spec fn form_pairs_of(input: Seq<u8>) -> Seq<(Seq<char>, Seq<char>)>;

/// Characters of the URL-safe base64 alphabet (RFC 4648 section 5).
pub open spec fn url_safe_char(c: char) -> bool {
    ('A' <= c && c <= 'Z') || ('a' <= c && c <= 'z') || ('0' <= c && c <= '9') || c == '-' || c
        == '_'
}

/// `md5::compute`: the 16-byte MD5 digest.
#[verifier::external_body]
pub(crate) fn md5_digest(data: &[u8]) -> (r: Vec<u8>)
    ensures
        r@ == md5_of(data@),
        r@.len() == 16,
{
    md5::compute(data).0.to_vec()
}

/// `sha2::Sha256::digest`: the 32-byte SHA-256 digest.
#[verifier::external_body]
pub(crate) fn sha256_digest(data: &[u8]) -> (r: Vec<u8>)
    ensures
        r@ == sha256_of(data@),
        r@.len() == 32,
{
    sha2::Sha256::digest(data).to_vec()
}

/// `Hmac::<Sha256>::new_from_slice`, `update`, `finalize`: the 32-byte tag
/// (HMAC accepts keys of any length, so the key is never rejected).
#[verifier::external_body]
pub(crate) fn hmac_sha256(key: &[u8], msg: &[u8]) -> (r: Vec<u8>)
    ensures
        r@ == hmac_sha256_of(key@, msg@),
        r@.len() == 32,
{
    let mut mac = hmac::Hmac::<sha2::Sha256>::new_from_slice(key).expect("any key length");
    mac.update(msg);
    mac.finalize().into_bytes().to_vec()
}

/// `Hmac::<Sha384>::new_from_slice`, `update`, `finalize`: the 48-byte tag.
#[verifier::external_body]
pub(crate) fn hmac_sha384(key: &[u8], msg: &[u8]) -> (r: Vec<u8>)
    ensures
        r@ == hmac_sha384_of(key@, msg@),
        r@.len() == 48,
{
    let mut mac = hmac::Hmac::<sha2::Sha384>::new_from_slice(key).expect("any key length");
    mac.update(msg);
    mac.finalize().into_bytes().to_vec()
}

/// `URL_SAFE_NO_PAD.encode`: only characters of the URL-safe alphabet, no `=`;
/// four characters per three bytes, a final one or two bytes giving two or
/// three (`encoded_len` without padding).
#[verifier::external_body]
pub(crate) fn base64_url_no_pad(data: &[u8]) -> (r: String)
    ensures
        r@ == base64_url_of(data@),
        r@.len() == (4 * data@.len() + 2) / 3,
        forall|i: int| 0 <= i < r@.len() ==> url_safe_char(#[trigger] r@[i]),
{
    base64::engine::general_purpose::URL_SAFE_NO_PAD.encode(data)
}

/// `STANDARD.encode`: four characters for each started group of three
/// bytes (`encoded_len` with padding).
#[verifier::external_body]
pub(crate) fn base64_standard(data: &[u8]) -> (r: String)
    ensures
        r@ == base64_std_of(data@),
        r@.len() == 4 * ((data@.len() + 2) / 3),
{
    base64::engine::general_purpose::STANDARD.encode(data)
}

/// `bcrypt::verify(password, hash)`, an error (malformed hash) read as `false`.
#[verifier::external_body]
pub(crate) fn bcrypt_verify(password: &[u8], hash: &str) -> (r: bool)
    ensures
        r == bcrypt_verifies(password@, hash@),
{
    bcrypt::verify(password, hash).unwrap_or(false)
}

/// `form_urlencoded::parse`, each pair taken as owned strings.
#[verifier::external_body]
pub(crate) fn form_urlencoded_pairs(input: &[u8]) -> (r: Vec<(String, String)>)
    ensures
        pair_views(r@) == form_pairs_of(input@),
{
    form_urlencoded::parse(input).map(|(k, v)| (k.into_owned(), v.into_owned())).collect()
}

// ------------------------------------------------------------------
// Lowercase hex
// ------------------------------------------------------------------

pub open spec fn hex_digit(n: nat) -> char {
    if n < 10 {
        ((n + 48) as u8) as char
    } else {
        ((n + 87) as u8) as char
    }
}

/// Two lowercase hex digits per byte (what `{:x}` prints for a digest).
pub open spec fn hex_lower(data: Seq<u8>) -> Seq<char>
    decreases data.len(),
{
    if data.len() == 0 {
        Seq::empty()
    } else {
        hex_lower(data.drop_last()) + seq![
            hex_digit((data.last() / 16) as nat),
            hex_digit((data.last() % 16) as nat),
        ]
    }
}

fn hex_char(n: u8) -> (c: char)
    requires
        n < 16,
    ensures
        c == hex_digit(n as nat),
{
    if n < 10 {
        (n + 48) as char
    } else {
        (n + 87) as char
    }
}

pub fn to_hex_lower(data: &[u8]) -> (r: String)
    ensures
        r@ == hex_lower(data@),
{
    let mut r = String::new();
    let mut k: usize = 0;
    while k < data.len()
        invariant
            k <= data@.len(),
            r@ == hex_lower(data@.subrange(0, k as int)),
        decreases data@.len() - k,
    {
        let b = data[k];
        assert(data@.subrange(0, k + 1).drop_last() =~= data@.subrange(0, k as int));
        push_char(&mut r, hex_char(b / 16));
        push_char(&mut r, hex_char(b % 16));
        k += 1;
        assert(r@ =~= hex_lower(data@.subrange(0, k as int)));
    }
    assert(data@.subrange(0, data@.len() as int) =~= data@);
    r
}

} // verus!
