//! The cryptography of the login phase, as the outside crates compute it: RSA key parsing,
//! decryption and signature checks (`rsa`), SHA-1 (`sha1`), SHA-256 (`sha2`), HMAC-SHA256
//! (`hmac`), the signed hexadecimal form of a digest (`num-bigint`), uuid text (`uuid`), the clock
//! and random bytes. Keys are carried as DER bytes: public keys as SubjectPublicKeyInfo, private
//! keys as PKCS#8.
use hmac::Mac;
use rsa::pkcs8::{DecodePrivateKey, DecodePublicKey, EncodePublicKey};
use sha2::Digest;
use vstd::prelude::*;

use crate::codec::{be_value, pow256};

verus! {

/// Whether `der` is the DER form of an RSA public key.
pub uninterp spec fn public_key_der_valid(der: Seq<u8>) -> bool;

/// Whether `signature` is a PKCS#1 v1.5 signature, with the SHA-1 digest prefix, of the digest
/// `hashed` under the public key whose DER form is `der`.
pub uninterp spec fn sha1_signature_valid(der: Seq<u8>, hashed: Seq<u8>, signature: Seq<u8>) -> bool;

/// Whether `signature` is a PKCS#1 v1.5 signature, with the SHA-256 digest prefix, of the digest
/// `hashed` under the public key whose DER form is `der`.
pub uninterp spec fn sha256_signature_valid(der: Seq<u8>, hashed: Seq<u8>, signature: Seq<u8>) -> bool;

/// What PKCS#1 v1.5 decryption of `data` under the private key whose PKCS#8 form is `der`
/// gives, if it succeeds.
pub uninterp spec fn pkcs1v15_decrypted(der: Seq<u8>, data: Seq<u8>) -> Option<Seq<u8>>;

/// The DER form of the public half of the private key whose PKCS#8 form is `der`.
pub uninterp spec fn public_der_of(der: Seq<u8>) -> Option<Seq<u8>>;

/// The SHA-1 digest of `data`.
pub uninterp spec fn sha1_digest(data: Seq<u8>) -> Seq<u8>;

/// The SHA-256 digest of `data`.
pub uninterp spec fn sha256_digest(data: Seq<u8>) -> Seq<u8>;

/// The HMAC-SHA256 tag of `data` under `key`.
pub uninterp spec fn hmac_sha256(key: Seq<u8>, data: Seq<u8>) -> Seq<u8>;

/// The uuid that `text` spells, if it spells one.
pub uninterp spec fn uuid_text_value(text: Seq<char>) -> Option<u128>;

/// Parses `der` with `rsa::RsaPublicKey::from_public_key_der`; the claim is only that the answer
/// is a function of the bytes, named `public_key_der_valid`.
#[verifier::external_body]
pub(crate) fn check_public_key_der(der: &[u8]) -> (r: bool)
    ensures
        r == public_key_der_valid(der@),
{
    rsa::RsaPublicKey::from_public_key_der(der).is_ok()
}

/// Checks a SHA-1 PKCS#1 v1.5 signature with `rsa::RsaPublicKey::verify`, the key read from its
/// DER form; an unreadable key fails the check. The claim: the answer is a function of the three
/// byte strings, named `sha1_signature_valid`.
#[verifier::external_body]
pub(crate) fn verify_sha1_signature(der: &[u8], hashed: &[u8], signature: &[u8]) -> (r: bool)
    ensures
        r == sha1_signature_valid(der@, hashed@, signature@),
{
    match rsa::RsaPublicKey::from_public_key_der(der) {
        Ok(key) => key.verify(rsa::Pkcs1v15Sign::new::<sha1::Sha1>(), hashed, signature).is_ok(),
        Err(_) => false,
    }
}

/// Checks a SHA-256 PKCS#1 v1.5 signature with `rsa::RsaPublicKey::verify`, the key read from
/// its DER form; an unreadable key fails the check. The claim: the answer is a function of the
/// three byte strings, named `sha256_signature_valid`.
#[verifier::external_body]
pub(crate) fn verify_sha256_signature(der: &[u8], hashed: &[u8], signature: &[u8]) -> (r: bool)
    ensures
        r == sha256_signature_valid(der@, hashed@, signature@),
{
    match rsa::RsaPublicKey::from_public_key_der(der) {
        Ok(key) => key.verify(rsa::Pkcs1v15Sign::new::<sha2::Sha256>(), hashed, signature).is_ok(),
        Err(_) => false,
    }
}

/// Decrypts `data` with `rsa::RsaPrivateKey::decrypt` and PKCS#1 v1.5 padding, the key read
/// from its PKCS#8 form. That call uses no blinding, so the outcome is a function of the two
/// byte strings: the claim is that it is the one named `pkcs1v15_decrypted`.
#[verifier::external_body]
pub(crate) fn decrypt_pkcs1v15(der: &[u8], data: &[u8]) -> (r: Option<Vec<u8>>)
    ensures
        match r {
            Some(v) => pkcs1v15_decrypted(der@, data@) == Some(v@),
            None => pkcs1v15_decrypted(der@, data@) is None,
        },
{
    match rsa::RsaPrivateKey::from_pkcs8_der(der) {
        Ok(key) => key.decrypt(rsa::Pkcs1v15Encrypt, data).ok(),
        Err(_) => None,
    }
}

/// The public half of a PKCS#8 private key, in DER (`to_public_key`, then
/// `to_public_key_der`). The claim: a function of the bytes, named `public_der_of`.
#[verifier::external_body]
pub(crate) fn public_key_der_of(der: &[u8]) -> (r: Option<Vec<u8>>)
    ensures
        match r {
            Some(v) => public_der_of(der@) == Some(v@),
            None => public_der_of(der@) is None,
        },
{
    match rsa::RsaPrivateKey::from_pkcs8_der(der) {
        Ok(key) => match key.to_public_key().to_public_key_der() {
            Ok(doc) => Some(doc.as_bytes().to_vec()),
            Err(_) => None,
        },
        Err(_) => None,
    }
}

/// `sha1::Sha1::digest`: the 20-byte digest, named `sha1_digest`.
#[verifier::external_body]
pub(crate) fn sha1(data: &[u8]) -> (r: Vec<u8>)
    ensures
        r@ == sha1_digest(data@),
        r@.len() == 20,
{
    sha1::Sha1::digest(data).to_vec()
}

/// `sha2::Sha256::digest`: the 32-byte digest, named `sha256_digest`.
#[verifier::external_body]
pub(crate) fn sha256(data: &[u8]) -> (r: Vec<u8>)
    ensures
        r@ == sha256_digest(data@),
        r@.len() == 32,
{
    sha2::Sha256::digest(data).to_vec()
}

/// Checks `tag` against the HMAC-SHA256 of `data` under `key` (`hmac::Hmac::verify_slice`, which
/// also refuses a tag of another length). HMAC takes a key of any length, so making the MAC does
/// not fail. The claim: the check passes exactly when `tag` is the tag named `hmac_sha256`.
#[verifier::external_body]
pub(crate) fn hmac_sha256_verify(key: &[u8], data: &[u8], tag: &[u8]) -> (r: bool)
    ensures
        r == (tag@ == hmac_sha256(key@, data@)),
{
    let mut mac = match hmac::Hmac::<sha2::Sha256>::new_from_slice(key) {
        Ok(mac) => mac,
        Err(_) => return false,
    };
    mac.update(data);
    mac.verify_slice(tag).is_ok()
}

/// A hexadecimal digit, lower case.
pub open spec fn hex_digit(d: nat) -> char {
    if d < 10 {
        (48 + d) as char
    } else {
        (87 + d) as char
    }
}

/// The hexadecimal digits of `v`, without leading zeros.
pub open spec fn hex_text(v: nat) -> Seq<char>
    decreases v,
{
    if v < 16 {
        seq![hex_digit(v)]
    } else {
        hex_text(v / 16).push(hex_digit(v % 16))
    }
}

/// The number whose two's complement big-endian bytes are `s`.
pub open spec fn signed_be_value(s: Seq<u8>) -> int {
    if s.len() > 0 && s[0] >= 128 {
        be_value(s) - pow256(s.len())
    } else {
        be_value(s) as int
    }
}

/// The signed hexadecimal text of the number whose two's complement big-endian bytes are `s`:
/// a minus sign for a negative number, then the digits of its magnitude.
pub open spec fn signed_hex_text(s: Seq<u8>) -> Seq<char> {
    let v = signed_be_value(s);
    if v < 0 {
        seq!['-'] + hex_text((-v) as nat)
    } else {
        hex_text(v as nat)
    }
}

/// `format!("{:x}", BigInt::from_signed_bytes_be(bytes))`: num-bigint reads the bytes as a two's
/// complement number and writes it in lower-case hexadecimal, with a minus sign when negative.
#[verifier::external_body]
pub(crate) fn signed_hex(bytes: &[u8]) -> (r: String)
    ensures
        r@ == signed_hex_text(bytes@),
{
    format!("{:x}", num_bigint::BigInt::from_signed_bytes_be(bytes))
}

/// `uuid::Uuid::parse_str`, as a 128-bit number; the claim is that the outcome is a function of
/// the text, named `uuid_text_value`.
#[verifier::external_body]
pub(crate) fn parse_uuid(text: &str) -> (r: Option<u128>)
    ensures
        r == uuid_text_value(text@),
{
    match uuid::Uuid::parse_str(text) {
        Ok(id) => Some(id.as_u128()),
        Err(_) => None,
    }
}

/// The time since the Unix epoch in nanoseconds, by `SystemTime::now`; none when the clock is
/// set before the epoch. Nothing is claimed of it.
#[verifier::external_body]
pub(crate) fn unix_time_nanos() -> (r: Option<u128>) {
    match std::time::SystemTime::now().duration_since(std::time::UNIX_EPOCH) {
        Ok(d) => Some(d.as_nanos()),
        Err(_) => None,
    }
}

/// Four random bytes from `rand::random`; only their number is claimed.
#[verifier::external_body]
pub(crate) fn random_verify_token() -> (r: Vec<u8>)
    ensures
        r@.len() == 4,
{
    rand::random::<[u8; 4]>().to_vec()
}

} // verus!
