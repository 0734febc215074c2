//! Digests, RSA signatures, certificates and base64: the calls into the crates
//! that compute them.

use base64::engine::general_purpose::STANDARD;
use base64::Engine;
use rsa::pkcs1v15::Pkcs1v15Sign;
use rsa::pkcs8::DecodePublicKey;
use rsa::traits::PublicKeyParts;
use rsa::{BigUint, RsaPublicKey};
use sha1::Sha1;
use sha2::{Digest, Sha256};
use vstd::prelude::*;
use x509_cert::der::{pem, Decode, Encode, SliceReader};
use x509_cert::Certificate;

verus! {

/// An RSA public key: modulus and public exponent, big-endian.
pub struct RsaKey {
    pub modulus: Vec<u8>,
    pub exponent: Vec<u8>,
}

/// The model of an [`RsaKey`].
pub struct KeyView {
    pub modulus: Seq<u8>,
    pub exponent: Seq<u8>,
}

impl View for RsaKey {
    type V = KeyView;

    open spec fn view(&self) -> KeyView {
        KeyView { modulus: self.modulus@, exponent: self.exponent@ }
    }
}

/// What a result of bytes or an error text holds.
pub open spec fn bytes_or_text(r: Result<Vec<u8>, String>) -> Result<Seq<u8>, Seq<char>> {
    match r {
        Ok(v) => Ok(v@),
        Err(e) => Err(e@),
    }
}

/// What a result of nothing or an error text holds.
pub open spec fn unit_or_text(r: Result<(), String>) -> Result<(), Seq<char>> {
    match r {
        Ok(_) => Ok(()),
        Err(e) => Err(e@),
    }
}

/// What the standard base64 decoder makes of a text: the bytes, or the text of
/// its error.
pub uninterp spec fn base64_decoding(s: Seq<char>) -> Result<Seq<u8>, Seq<char>>;

/// The SHA-256 digest of some bytes.
pub uninterp spec fn sha256_digest(data: Seq<u8>) -> Seq<u8>;

/// The SHA-1 digest of some bytes.
pub uninterp spec fn sha1_digest(data: Seq<u8>) -> Seq<u8>;

/// What RSA PKCS#1 v1.5 verification of a SHA-256 digest says of a signature
/// under the key with this modulus and exponent.
pub uninterp spec fn rsa_sha256_verification(
    modulus: Seq<u8>,
    exponent: Seq<u8>,
    hashed: Seq<u8>,
    signature: Seq<u8>,
) -> Result<(), Seq<char>>;

/// What RSA PKCS#1 v1.5 verification of a SHA-1 digest says of a signature
/// under the key with this modulus and exponent.
pub uninterp spec fn rsa_sha1_verification(
    modulus: Seq<u8>,
    exponent: Seq<u8>,
    hashed: Seq<u8>,
    signature: Seq<u8>,
) -> Result<(), Seq<char>>;

/// The type label and the bytes of a PEM document, or the text of the error
/// where the text is none.
pub uninterp spec fn pem_document(s: Seq<char>) -> Result<(Seq<char>, Seq<u8>), Seq<char>>;

/// The DER encoding of the subject public key info of the certificate that a
/// DER encoding begins with. The outer error is that of reading the certificate,
/// the inner one that of encoding its key info.
pub uninterp spec fn certificate_key_info(
    der: Seq<u8>,
) -> Result<Result<Seq<u8>, Seq<char>>, Seq<char>>;

/// The modulus and the public exponent of the RSA key in a DER encoded subject
/// public key info, or the text of the error where it holds none.
pub uninterp spec fn rsa_key_parts(der: Seq<u8>) -> Result<(Seq<u8>, Seq<u8>), Seq<char>>;

/// `base64::Engine::decode` of `base64::engine::general_purpose::STANDARD`. Its
/// result is a function of the text alone and is named [`base64_decoding`]; an
/// error is handed on as its text.
#[verifier::external_body]
pub(crate) fn base64_decode(s: &str) -> (r: Result<Vec<u8>, String>)
    ensures
        bytes_or_text(r) == base64_decoding(s@),
{
    STANDARD.decode(s).map_err(|e| e.to_string())
}

/// `sha2::Sha256::digest`. The digest is a function of the bytes alone, named
/// [`sha256_digest`], and has 32 bytes.
#[verifier::external_body]
pub(crate) fn sha256(data: &[u8]) -> (r: Vec<u8>)
    ensures
        r@ == sha256_digest(data@),
        r@.len() == 32,
{
    Sha256::digest(data).to_vec()
}

/// `sha1::Sha1::digest`. The digest is a function of the bytes alone, named
/// [`sha1_digest`], and has 20 bytes.
#[verifier::external_body]
pub(crate) fn sha1(data: &[u8]) -> (r: Vec<u8>)
    ensures
        r@ == sha1_digest(data@),
        r@.len() == 20,
{
    Sha1::digest(data).to_vec()
}

/// `rsa::RsaPublicKey::verify` under `Pkcs1v15Sign::new::<Sha256>()`, on the key
/// rebuilt from its parts. The verdict is a function of the four arguments,
/// named [`rsa_sha256_verification`]; an error is handed on as its text.
#[verifier::external_body]
pub(crate) fn verify_rsa_sha256(modulus: &[u8], exponent: &[u8], hashed: &[u8], signature: &[u8]) -> (r: Result<
    (),
    String,
>)
    ensures
        unit_or_text(r) == rsa_sha256_verification(modulus@, exponent@, hashed@, signature@),
{
    RsaPublicKey::new(BigUint::from_bytes_be(modulus), BigUint::from_bytes_be(exponent))
        .and_then(|key| key.verify(Pkcs1v15Sign::new::<Sha256>(), hashed, signature))
        .map_err(|e| e.to_string())
}

/// `rsa::RsaPublicKey::verify` under `Pkcs1v15Sign::new::<Sha1>()`, on the key
/// rebuilt from its parts. The verdict is a function of the four arguments,
/// named [`rsa_sha1_verification`]; an error is handed on as its text.
#[verifier::external_body]
pub(crate) fn verify_rsa_sha1(modulus: &[u8], exponent: &[u8], hashed: &[u8], signature: &[u8]) -> (r: Result<
    (),
    String,
>)
    ensures
        unit_or_text(r) == rsa_sha1_verification(modulus@, exponent@, hashed@, signature@),
{
    RsaPublicKey::new(BigUint::from_bytes_be(modulus), BigUint::from_bytes_be(exponent))
        .and_then(|key| key.verify(Pkcs1v15Sign::new::<Sha1>(), hashed, signature))
        .map_err(|e| e.to_string())
}

/// `x509_cert::der::pem::decode_vec`. The outcome is a function of the text alone,
/// named [`pem_document`]; an error is handed on as its text.
#[verifier::external_body]
pub(crate) fn pem_decode(s: &str) -> (r: Result<(String, Vec<u8>), String>)
    ensures
        match r {
            Ok((label, der)) => pem_document(s@) == Ok::<(Seq<char>, Seq<u8>), Seq<char>>(
                (label@, der@),
            ),
            Err(e) => pem_document(s@) == Err::<(Seq<char>, Seq<u8>), Seq<char>>(e@),
        },
{
    pem::decode_vec(s.as_bytes())
        .map(|(label, der)| (label.to_owned(), der))
        .map_err(|e| e.to_string())
}

/// `x509_cert::Certificate::decode` from the begin of some bytes, which does not
/// look at what follows the certificate, then `to_der` of the subject public key
/// info that the certificate holds. The outcome is a function of the bytes alone,
/// named [`certificate_key_info`]; errors are handed on as their text.
#[verifier::external_body]
pub(crate) fn key_info_of_certificate(der: &[u8]) -> (r: Result<Result<Vec<u8>, String>, String>)
    ensures
        match r {
            Ok(inner) => certificate_key_info(der@) == Ok::<
                Result<Seq<u8>, Seq<char>>,
                Seq<char>,
            >(bytes_or_text(inner)),
            Err(e) => certificate_key_info(der@) == Err::<
                Result<Seq<u8>, Seq<char>>,
                Seq<char>,
            >(e@),
        },
{
    SliceReader::new(der)
        .and_then(|mut reader| Certificate::decode(&mut reader))
        .map(|c| c.tbs_certificate.subject_public_key_info.to_der().map_err(|e| e.to_string()))
        .map_err(|e| e.to_string())
}

/// `rsa::RsaPublicKey::from_public_key_der`, and the big-endian bytes of the
/// modulus and the exponent of the key that it reads. The outcome is a function
/// of the DER bytes alone, named [`rsa_key_parts`]; an error is handed on as its
/// text.
#[verifier::external_body]
pub(crate) fn key_parts_of_key_info(der: &[u8]) -> (r: Result<(Vec<u8>, Vec<u8>), String>)
    ensures
        match r {
            Ok((n, e)) => rsa_key_parts(der@) == Ok::<(Seq<u8>, Seq<u8>), Seq<char>>((n@, e@)),
            Err(text) => rsa_key_parts(der@) == Err::<(Seq<u8>, Seq<u8>), Seq<char>>(text@),
        },
{
    RsaPublicKey::from_public_key_der(der)
        .map(|k| (k.n().to_bytes_be(), k.e().to_bytes_be()))
        .map_err(|e| e.to_string())
}

} // verus!
