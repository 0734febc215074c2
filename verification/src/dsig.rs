//! XML digital signature verification, restricted to the SAML signing profile
//! and failing closed on anything else.
//!
//! Supported are exclusive canonicalization, the enveloped-signature transform,
//! RSA-SHA256 (and the older RSA-SHA1), and SHA-256 (and SHA-1) digests. The
//! canonical octets come from outside: verification stops at each
//! canonicalization that it needs, says which one it is, and goes on with the
//! reply.

use crate::c14n;
use crate::c14n::CanonRequest;
use crate::crypto;
use crate::crypto::RsaKey;
use crate::document;
use crate::document::Document;
use crate::text;
use vstd::prelude::*;
use vstd::string::*;

verus! {

/// The namespace of XML signatures.
pub const DS: &'static str = "http://www.w3.org/2000/09/xmldsig#";

/// Exclusive canonicalization.
pub const C14N_EXC: &'static str = "http://www.w3.org/2001/10/xml-exc-c14n#";

/// The enveloped-signature transform.
pub const ENVELOPED: &'static str = "http://www.w3.org/2000/09/xmldsig#enveloped-signature";

/// RSA PKCS#1 v1.5 signatures over SHA-256.
pub const RSA_SHA256: &'static str = "http://www.w3.org/2001/04/xmldsig-more#rsa-sha256";

/// RSA PKCS#1 v1.5 signatures over SHA-1.
pub const RSA_SHA1: &'static str = "http://www.w3.org/2000/09/xmldsig#rsa-sha1";

/// SHA-256 digests.
pub const SHA256_URI: &'static str = "http://www.w3.org/2001/04/xmlenc#sha256";

/// SHA-1 digests.
pub const SHA1_URI: &'static str = "http://www.w3.org/2000/09/xmldsig#sha1";

/// The nodes of a document.
pub type Tree = Seq<document::NodeView>;

/// What canonicalization answers to each request: octets, or the text of an
/// error.
pub type Canon = spec_fn(c14n::RequestView) -> Result<Seq<u8>, Seq<char>>;

/// What a result of a string or an error text holds.
pub open spec fn string_or_text(r: Result<String, String>) -> Result<Seq<char>, Seq<char>> {
    match r {
        Ok(s) => Ok(s@),
        Err(e) => Err(e@),
    }
}

/// What a result of a position or an error text holds.
pub open spec fn id_or_text(r: Result<usize, String>) -> Result<int, Seq<char>> {
    match r {
        Ok(i) => Ok(i as int),
        Err(e) => Err(e@),
    }
}

/// What a result of strings or an error text holds.
pub open spec fn strings_or_text(r: Result<Vec<String>, String>) -> Result<
    Seq<Seq<char>>,
    Seq<char>,
> {
    match r {
        Ok(v) => Ok(v.deep_view()),
        Err(e) => Err(e@),
    }
}

/// What a result of a key or an error text holds.
pub open spec fn key_or_text(r: Result<RsaKey, String>) -> Result<crypto::KeyView, Seq<char>> {
    match r {
        Ok(k) => Ok(k@),
        Err(e) => Err(e@),
    }
}

// ---------------------------------------------------------------------------
// The trust anchor
// ---------------------------------------------------------------------------
/// The bytes of a PEM document that holds a certificate, or the text that says
/// why it does not.
pub open spec fn certificate_der(document: Result<(Seq<char>, Seq<u8>), Seq<char>>) -> Result<
    Seq<u8>,
    Seq<char>,
> {
    match document {
        Ok((label, der)) => if label == "CERTIFICATE"@ {
            Ok(der)
        } else {
            Err(
                "parse IdP certificate PEM: PEM error: unexpected PEM type label: expecting \"CERTIFICATE\""@,
            )
        },
        Err(e) => Err("parse IdP certificate PEM: PEM error: "@ + e),
    }
}

/// The key info of a certificate, or the text that says why there is none.
pub open spec fn key_info_result(
    info: Result<Result<Seq<u8>, Seq<char>>, Seq<char>>,
) -> Result<Seq<u8>, Seq<char>> {
    match info {
        Ok(Ok(der)) => Ok(der),
        Ok(Err(e)) => Err("encode certificate SPKI: "@ + e),
        Err(e) => Err("parse IdP certificate PEM: "@ + e),
    }
}

/// The key made of its parts, or the text that says why there is none.
pub open spec fn key_result(parts: Result<(Seq<u8>, Seq<u8>), Seq<char>>) -> Result<
    crypto::KeyView,
    Seq<char>,
> {
    match parts {
        Ok((modulus, exponent)) => Ok(crypto::KeyView { modulus, exponent }),
        Err(e) => Err("certificate is not an RSA key: "@ + e),
    }
}

/// The RSA public key of a PEM certificate, or the text that says why there is
/// none.
pub open spec fn certificate_key(pem: Seq<char>) -> Result<crypto::KeyView, Seq<char>> {
    match certificate_der(crypto::pem_document(pem)) {
        Ok(der) => match key_info_result(crypto::certificate_key_info(der)) {
            Ok(info) => key_result(crypto::rsa_key_parts(info)),
            Err(e) => Err(e),
        },
        Err(e) => Err(e),
    }
}

/// Judges what decoding a PEM document gave.
pub fn judge_pem(document: Result<(String, Vec<u8>), String>) -> (r: Result<Vec<u8>, String>)
    ensures
        crypto::bytes_or_text(r) == certificate_der(
            match document {
                Ok((label, der)) => Ok((label@, der@)),
                Err(e) => Err(e@),
            },
        ),
{
    match document {
        Ok((label, der)) => if text::same(label.as_str(), "CERTIFICATE") {
            Ok(der)
        } else {
            Err(
                "parse IdP certificate PEM: PEM error: unexpected PEM type label: expecting \"CERTIFICATE\"".to_owned(),
            )
        },
        Err(e) => Err(text::joined("parse IdP certificate PEM: PEM error: ", e.as_str())),
    }
}

/// Judges what reading a certificate gave.
pub fn judge_key_info(info: Result<Result<Vec<u8>, String>, String>) -> (r: Result<Vec<u8>, String>)
    ensures
        crypto::bytes_or_text(r) == key_info_result(
            match info {
                Ok(inner) => Ok(crypto::bytes_or_text(inner)),
                Err(e) => Err(e@),
            },
        ),
{
    match info {
        Ok(Ok(der)) => Ok(der),
        Ok(Err(e)) => Err(text::joined("encode certificate SPKI: ", e.as_str())),
        Err(e) => Err(text::joined("parse IdP certificate PEM: ", e.as_str())),
    }
}

/// Judges what reading a public key gave.
pub fn judge_key(parts: Result<(Vec<u8>, Vec<u8>), String>) -> (r: Result<RsaKey, String>)
    ensures
        key_or_text(r) == key_result(
            match parts {
                Ok((n, e)) => Ok((n@, e@)),
                Err(e) => Err(e@),
            },
        ),
{
    match parts {
        Ok((modulus, exponent)) => Ok(RsaKey { modulus, exponent }),
        Err(e) => Err(text::joined("certificate is not an RSA key: ", e.as_str())),
    }
}

/// Reads the RSA public key of a PEM certificate: the verification trust
/// anchor, which the operator configures. A certificate that a message carries
/// is never read.
pub fn rsa_pubkey_from_cert_pem(pem: &str) -> (r: Result<RsaKey, String>)
    ensures
        key_or_text(r) == certificate_key(pem@),
{
    let der = match judge_pem(crypto::pem_decode(pem)) {
        Ok(der) => der,
        Err(e) => return Err(e),
    };
    match judge_key_info(crypto::key_info_of_certificate(der.as_slice())) {
        Ok(info) => judge_key(crypto::key_parts_of_key_info(info.as_slice())),
        Err(e) => Err(e),
    }
}

// ---------------------------------------------------------------------------
// Reading the signature
// ---------------------------------------------------------------------------
/// The first child of `a` in the signature namespace with the local name
/// `local`; its absence is an error.
pub open spec fn one_of(t: Tree, a: int, local: Seq<char>) -> Result<int, Seq<char>> {
    match document::child_named(t, a, local, Some(DS@)) {
        Some(i) => Ok(i),
        None => Err("missing element: ./ds:"@ + local),
    }
}

/// The children of `a` in the signature namespace with the local name `local`.
pub open spec fn all_of(t: Tree, a: int, local: Seq<char>) -> Seq<int> {
    document::children_named(t, seq![a], local, Some(DS@))
}

/// The value of an attribute, empty where it is absent.
pub open spec fn attribute_or_empty(t: Tree, i: int, name: Seq<char>) -> Seq<char> {
    match document::attribute_of(t, i, name) {
        Some(v) => v,
        None => Seq::empty(),
    }
}

/// The `Algorithm` of the child `local` of `a`.
pub open spec fn algorithm_of(t: Tree, a: int, local: Seq<char>) -> Result<Seq<char>, Seq<char>> {
    match one_of(t, a, local) {
        Ok(i) => Ok(attribute_or_empty(t, i, "Algorithm"@)),
        Err(e) => Err(e),
    }
}

/// The prefix list of the inclusive namespaces that a canonicalization method
/// or transform names.
pub open spec fn prefixes_of(t: Tree, method: int) -> Seq<Seq<char>> {
    match document::child_named(t, method, "InclusiveNamespaces"@, None) {
        Some(n) => match document::attribute_of(t, n, "PrefixList"@) {
            Some(list) => text::words(list),
            None => Seq::empty(),
        },
        None => Seq::empty(),
    }
}

/// Whether `c` may stand in the id that a reference names.
pub open spec fn is_id_char(c: char) -> bool {
    ||| 'a' <= c <= 'z'
    ||| 'A' <= c <= 'Z'
    ||| '0' <= c <= '9'
    ||| c == '_'
    ||| c == '-'
    ||| c == '.'
    ||| c == ':'
}

/// Whether `id` is not empty and made of id characters only.
pub open spec fn is_safe_id(id: Seq<char>) -> bool {
    id.len() > 0 && forall|i: int| 0 <= i < id.len() ==> #[trigger] is_id_char(id[i])
}

/// The id that a same-document reference URI names.
pub open spec fn id_of_uri(uri: Seq<char>) -> Result<Seq<char>, Seq<char>> {
    if uri.len() > 0 && uri[0] == '#' {
        let id = uri.skip(1);
        if is_safe_id(id) {
            Ok(id)
        } else {
            Err("unsafe Reference id '"@ + id + "'"@)
        }
    } else {
        Err("only same-document Reference URIs are supported, got '"@ + uri + "'"@)
    }
}

/// The digest of `data` under the digest method `uri`.
pub open spec fn digest_of(uri: Seq<char>, data: Seq<u8>) -> Result<Seq<u8>, Seq<char>> {
    if uri == SHA256_URI@ {
        Ok(crypto::sha256_digest(data))
    } else if uri == SHA1_URI@ {
        Ok(crypto::sha1_digest(data))
    } else {
        Err("unsupported DigestMethod: "@ + uri)
    }
}

/// The first child of `a` in the signature namespace with the local name
/// `local`; its absence is an error.
fn one(doc: &Document, a: usize, local: &str) -> (r: Result<usize, String>)
    ensures
        id_or_text(r) == one_of(doc@, a as int, local@),
{
    match doc.child(a, local, Some(DS)) {
        Some(i) => Ok(i),
        None => Err(text::joined("missing element: ./ds:", local)),
    }
}

/// The children of `a` in the signature namespace with the local name `local`.
fn all(doc: &Document, a: usize, local: &str) -> (r: Vec<usize>)
    ensures
        document::ids(r@) == all_of(doc@, a as int, local@),
{
    let parents = vec![a];
    assert(document::ids(parents@) =~= seq![a as int]);
    doc.children(&parents, local, Some(DS))
}

/// The value of an attribute, empty where it is absent.
fn attribute(doc: &Document, i: usize, name: &str) -> (r: String)
    ensures
        r@ == attribute_or_empty(doc@, i as int, name@),
{
    match doc.get_attribute(i, name) {
        Some(v) => v,
        None => String::new(),
    }
}

/// The `Algorithm` of the child `local` of `a`.
fn algorithm(doc: &Document, a: usize, local: &str) -> (r: Result<String, String>)
    ensures
        string_or_text(r) == algorithm_of(doc@, a as int, local@),
{
    match one(doc, a, local) {
        Ok(i) => Ok(attribute(doc, i, "Algorithm")),
        Err(e) => Err(e),
    }
}

/// The digest of `data` under the digest method `uri`; any other method than
/// SHA-256 and SHA-1 is an error.
pub fn digest(uri: &str, data: &[u8]) -> (r: Result<Vec<u8>, String>)
    ensures
        crypto::bytes_or_text(r) == digest_of(uri@, data@),
        r matches Ok(d) ==> d@.len() == (if uri@ == SHA256_URI@ {
            32int
        } else {
            20
        }),
{
    if text::same(uri, SHA256_URI) {
        Ok(crypto::sha256(data))
    } else if text::same(uri, SHA1_URI) {
        Ok(crypto::sha1(data))
    } else {
        Err(text::joined("unsupported DigestMethod: ", uri))
    }
}

/// The prefix list of the inclusive namespaces that a canonicalization method
/// or transform names, if it does.
pub fn inclusive_prefixes(doc: &Document, method: usize) -> (r: Vec<String>)
    ensures
        r.deep_view() == prefixes_of(doc@, method as int),
{
    let none: Vec<String> = Vec::new();
    assert(none.deep_view() =~= Seq::<Seq<char>>::empty());
    match doc.child(method, "InclusiveNamespaces", None) {
        Some(n) => match doc.get_attribute(n, "PrefixList") {
            Some(list) => text::split_whitespace(list.as_str()),
            None => none,
        },
        None => none,
    }
}

/// The id that a reference URI such as `#_id` names. Only same-document
/// references to an id of ASCII letters, digits, `_`, `-`, `.` and `:` are
/// accepted.
pub fn safe_id(uri: &str) -> (r: Result<String, String>)
    ensures
        string_or_text(r) == id_of_uri(uri@),
{
    let v = text::characters(uri);
    if v.len() == 0 || v[0] != '#' {
        return Err(
            text::joined3("only same-document Reference URIs are supported, got '", uri, "'"),
        );
    }
    let id = uri.substring_char(1, v.len());
    let ghost name = uri@.skip(1);
    assert(id@ =~= name);
    let mut safe = v.len() > 1;
    let mut i: usize = 1;
    while i < v.len()
        invariant
            1 <= i <= v.len(),
            v@ == uri@,
            name == uri@.skip(1),
            safe == (v.len() > 1 && forall|j: int|
                0 <= j < i - 1 ==> #[trigger] is_id_char(name[j])),
        decreases v.len() - i,
    {
        let c = v[i];
        let fine = ('a' <= c && c <= 'z') || ('A' <= c && c <= 'Z') || ('0' <= c && c <= '9') || c
            == '_' || c == '-' || c == '.' || c == ':';
        assert(fine == is_id_char(name[i - 1]));
        safe = safe && fine;
        i = i + 1;
    }
    if safe {
        Ok(id.to_owned())
    } else {
        Err(text::joined3("unsafe Reference id '", id, "'"))
    }
}

// ---------------------------------------------------------------------------
// What verification says
// ---------------------------------------------------------------------------
/// The transforms of a reference.
pub open spec fn transforms_of(t: Tree, reference: int) -> Seq<int> {
    document::children_named(
        t,
        all_of(t, reference, "Transforms"@),
        "Transform"@,
        Some(DS@),
    )
}

/// The last exclusive canonicalization among the transforms `s`, if any. The
/// first transform that is neither that nor the enveloped-signature transform
/// is an error.
pub open spec fn canonical_transform(t: Tree, s: Seq<int>) -> Result<Option<int>, Seq<char>>
    decreases s.len(),
{
    if s.len() == 0 {
        Ok(None)
    } else {
        match canonical_transform(t, s.drop_last()) {
            Err(e) => Err(e),
            Ok(earlier) => {
                let alg = attribute_or_empty(t, s.last(), "Algorithm"@);
                if alg == ENVELOPED@ {
                    Ok(earlier)
                } else if alg == C14N_EXC@ {
                    Ok(Some(s.last()))
                } else {
                    Err("unsupported Transform: "@ + alg)
                }
            },
        }
    }
}

/// The id that a reference names, and the canonicalization that its digest is
/// taken over: that of the first element with this `ID`, without the signature
/// itself.
pub open spec fn reference_request(t: Tree, signature: int, reference: int) -> Result<
    (Seq<char>, c14n::RequestView),
    Seq<char>,
> {
    match id_of_uri(attribute_or_empty(t, reference, "URI"@)) {
        Err(e) => Err(e),
        Ok(id) => match canonical_transform(t, transforms_of(t, reference)) {
            Err(e) => Err(e),
            Ok(None) => Err("Reference is missing the exclusive-c14n transform"@),
            Ok(Some(method)) => match document::element_with_attribute(t, "ID"@, id) {
                None => Err("Reference target #"@ + id + " not found"@),
                Some(target) => Ok(
                    (
                        id,
                        c14n::RequestView {
                            target,
                            exclude: Some(signature),
                            prefixes: prefixes_of(t, method),
                        },
                    ),
                ),
            },
        },
    }
}

/// The verdict on a computed digest against what decoding the declared one gave.
pub open spec fn digest_verdict(
    id: Seq<char>,
    computed: Seq<u8>,
    declared: Result<Seq<u8>, Seq<char>>,
) -> Result<(), Seq<char>> {
    match declared {
        Err(e) => Err("DigestValue base64: "@ + e),
        Ok(d) => if computed == d {
            Ok(())
        } else {
            Err("digest mismatch for Reference #"@ + id)
        },
    }
}

/// The verdict on a reference, given the canonical octets of what it names.
pub open spec fn reference_verdict(
    t: Tree,
    reference: int,
    id: Seq<char>,
    octets: Seq<u8>,
) -> Result<(), Seq<char>> {
    match algorithm_of(t, reference, "DigestMethod"@) {
        Err(e) => Err(e),
        Ok(alg) => match digest_of(alg, octets) {
            Err(e) => Err(e),
            Ok(computed) => match one_of(t, reference, "DigestValue"@) {
                Err(e) => Err(e),
                Ok(value) => digest_verdict(
                    id,
                    computed,
                    crypto::base64_decoding(text::trimmed(document::content_of(t, value))),
                ),
            },
        },
    }
}

/// The id that a reference covers, once its digest has been found right.
pub open spec fn reference_result(t: Tree, signature: int, reference: int, canon: Canon) -> Result<
    Seq<char>,
    Seq<char>,
> {
    match reference_request(t, signature, reference) {
        Err(e) => Err(e),
        Ok((id, request)) => match canon(request) {
            Err(e) => Err(e),
            Ok(octets) => match reference_verdict(t, reference, id, octets) {
                Err(e) => Err(e),
                Ok(_) => Ok(id),
            },
        },
    }
}

/// The ids that the references `s` cover, in order; the first that fails is the
/// error.
pub open spec fn references_result(
    t: Tree,
    signature: int,
    s: Seq<int>,
    canon: Canon,
) -> Result<Seq<Seq<char>>, Seq<char>>
    decreases s.len(),
{
    if s.len() == 0 {
        Ok(Seq::empty())
    } else {
        match reference_result(t, signature, s.first(), canon) {
            Err(e) => Err(e),
            Ok(id) => match references_result(t, signature, s.drop_first(), canon) {
                Err(e) => Err(e),
                Ok(rest) => Ok(seq![id] + rest),
            },
        }
    }
}

/// What RSA says of `signature` over `octets` under `key`: with SHA-256 or with
/// SHA-1.
pub open spec fn rsa_verdict(
    key: crypto::KeyView,
    with_sha256: bool,
    octets: Seq<u8>,
    signature: Seq<u8>,
) -> Result<(), Seq<char>> {
    if with_sha256 {
        crypto::rsa_sha256_verification(
            key.modulus,
            key.exponent,
            crypto::sha256_digest(octets),
            signature,
        )
    } else {
        crypto::rsa_sha1_verification(
            key.modulus,
            key.exponent,
            crypto::sha1_digest(octets),
            signature,
        )
    }
}

/// The result of verification for what RSA said.
pub open spec fn conclusion(
    verdict: Result<(), Seq<char>>,
    covered: Seq<Seq<char>>,
) -> Result<Seq<Seq<char>>, Seq<char>> {
    match verdict {
        Ok(_) => Ok(covered),
        Err(e) => Err("signature verification failed: "@ + e),
    }
}

/// The result of verification, given the canonical octets of the signed info
/// and the ids that its references cover.
pub open spec fn signature_result(
    t: Tree,
    signature: int,
    key: crypto::KeyView,
    with_sha256: bool,
    octets: Seq<u8>,
    covered: Seq<Seq<char>>,
) -> Result<Seq<Seq<char>>, Seq<char>> {
    match one_of(t, signature, "SignatureValue"@) {
        Err(e) => Err(e),
        Ok(value) => match crypto::base64_decoding(
            text::without_white_space(document::content_of(t, value)),
        ) {
            Err(e) => Err("SignatureValue base64: "@ + e),
            Ok(bytes) => conclusion(rsa_verdict(key, with_sha256, octets, bytes), covered),
        },
    }
}

/// The canonicalization that the signature itself is taken over: that of the
/// signed info.
pub open spec fn signed_info_request(t: Tree, signed_info: int, method: int) -> c14n::RequestView {
    c14n::RequestView {
        target: signed_info,
        exclude: None,
        prefixes: prefixes_of(t, method),
    }
}

/// The result of verification once the algorithms have been accepted: every
/// reference first, then the signature over the signed info.
pub open spec fn checked_result(
    t: Tree,
    signature: int,
    signed_info: int,
    method: int,
    key: crypto::KeyView,
    with_sha256: bool,
    references: Seq<int>,
    covered: Seq<Seq<char>>,
    canon: Canon,
) -> Result<Seq<Seq<char>>, Seq<char>> {
    match references_result(t, signature, references, canon) {
        Err(e) => Err(e),
        Ok(rest) => match canon(signed_info_request(t, signed_info, method)) {
            Err(e) => Err(e),
            Ok(octets) => signature_result(
                t,
                signature,
                key,
                with_sha256,
                octets,
                covered + rest,
            ),
        },
    }
}

/// The result of verifying the signature element `signature` under `key`, where
/// `canon` gives the canonical octets: the ids that it covers, or the text that
/// says why it is refused.
pub open spec fn verification(
    t: Tree,
    signature: int,
    key: crypto::KeyView,
    canon: Canon,
) -> Result<Seq<Seq<char>>, Seq<char>> {
    match one_of(t, signature, "SignedInfo"@) {
        Err(e) => Err(e),
        Ok(signed_info) => match one_of(t, signed_info, "CanonicalizationMethod"@) {
            Err(e) => Err(e),
            Ok(method) => {
                let c14n_alg = attribute_or_empty(t, method, "Algorithm"@);
                if c14n_alg != C14N_EXC@ {
                    Err("unsupported CanonicalizationMethod: "@ + c14n_alg)
                } else {
                    match algorithm_of(t, signed_info, "SignatureMethod"@) {
                        Err(e) => Err(e),
                        Ok(sig_alg) => if sig_alg != RSA_SHA256@ && sig_alg != RSA_SHA1@ {
                            Err("unsupported SignatureMethod: "@ + sig_alg)
                        } else {
                            let references = all_of(t, signed_info, "Reference"@);
                            if references.len() == 0 {
                                Err("SignedInfo has no Reference"@)
                            } else {
                                checked_result(
                                    t,
                                    signature,
                                    signed_info,
                                    method,
                                    key,
                                    sig_alg == RSA_SHA256@,
                                    references,
                                    Seq::empty(),
                                    canon,
                                )
                            }
                        },
                    }
                }
            },
        },
    }
}

/// How many canonicalizations verification asks for, where none of the answers
/// ends it early: one for each reference, and one for the signed info.
pub open spec fn canonicalizations(t: Tree, signature: int) -> nat {
    match one_of(t, signature, "SignedInfo"@) {
        Ok(signed_info) => all_of(t, signed_info, "Reference"@).len() + 1,
        Err(_) => 0,
    }
}

// ---------------------------------------------------------------------------
// Verification
// ---------------------------------------------------------------------------
/// Where verification stands: it waits for canonical octets, or it is done.
pub enum VerifyStep<'a> {
    Canonicalize(Verifier<'a>),
    Done(Result<Vec<String>, String>),
}

/// What the octets that are asked for are needed for: the digest of the
/// reference that names `id`, or the signature over the signed info.
enum Stage {
    Reference { id: String },
    SignedInfo,
}

/// A verification that waits for canonical octets.
pub struct Verifier<'a> {
    doc: &'a Document,
    key: &'a RsaKey,
    signature: usize,
    signed_info: usize,
    method: usize,
    with_sha256: bool,
    /// The references of the signed info.
    references: Vec<usize>,
    /// How many of them have been found right.
    checked: usize,
    /// The ids that those cover.
    covered: Vec<String>,
    stage: Stage,
    request: CanonRequest,
}

impl<'a> Verifier<'a> {
    #[verifier::type_invariant]
    spec fn inv(self) -> bool {
        match self.stage {
            Stage::Reference { id } => {
                &&& self.checked < self.references.len()
                &&& reference_request(
                    self.doc@,
                    self.signature as int,
                    self.references@[self.checked as int] as int,
                ) == Ok::<(Seq<char>, c14n::RequestView), Seq<char>>((id@, self.request@))
            },
            Stage::SignedInfo => {
                &&& self.checked == self.references.len()
                &&& self.request@ == signed_info_request(
                    self.doc@,
                    self.signed_info as int,
                    self.method as int,
                )
            },
        }
    }

    /// The canonicalization that is asked for.
    pub closed spec fn requested(self) -> c14n::RequestView {
        self.request@
    }

    /// How many canonicalizations are still needed.
    pub closed spec fn remaining(self) -> nat {
        (self.references.len() - self.checked + 1) as nat
    }

    /// The result that this verification comes to, where `canon` gives the
    /// canonical octets.
    pub closed spec fn outcome(self, canon: Canon) -> Result<Seq<Seq<char>>, Seq<char>> {
        checked_result(
            self.doc@,
            self.signature as int,
            self.signed_info as int,
            self.method as int,
            self.key@,
            self.with_sha256,
            document::ids(self.references@).skip(self.checked as int),
            self.covered.deep_view(),
            canon,
        )
    }

    /// The canonicalization that is asked for.
    pub fn request(&self) -> (r: &CanonRequest)
        ensures
            r@ == self.requested(),
    {
        &self.request
    }
}

impl<'a> VerifyStep<'a> {
    /// The result that this step comes to, where `canon` gives the canonical
    /// octets.
    pub open spec fn outcome(self, canon: Canon) -> Result<Seq<Seq<char>>, Seq<char>> {
        match self {
            VerifyStep::Canonicalize(v) => v.outcome(canon),
            VerifyStep::Done(r) => strings_or_text(r),
        }
    }
}

/// The last exclusive canonicalization among the transforms, if any.
fn find_canonical_transform(doc: &Document, transforms: &Vec<usize>) -> (r: Result<
    Option<usize>,
    String,
>)
    ensures
        match r {
            Ok(m) => canonical_transform(doc@, document::ids(transforms@)) == Ok::<
                Option<int>,
                Seq<char>,
            >(document::opt_id(m)),
            Err(e) => canonical_transform(doc@, document::ids(transforms@)) == Err::<
                Option<int>,
                Seq<char>,
            >(e@),
        },
{
    let ghost all = document::ids(transforms@);
    let mut found: Option<usize> = None;
    let mut i: usize = 0;
    while i < transforms.len()
        invariant
            i <= transforms.len(),
            all == document::ids(transforms@),
            canonical_transform(doc@, all.take(i as int)) == Ok::<Option<int>, Seq<char>>(
                document::opt_id(found),
            ),
        decreases transforms.len() - i,
    {
        let ghost next = all.take(i + 1);
        assert(next.drop_last() =~= all.take(i as int));
        let alg = attribute(doc, transforms[i], "Algorithm");
        if text::same(alg.as_str(), ENVELOPED) {
        } else if text::same(alg.as_str(), C14N_EXC) {
            found = Some(transforms[i]);
        } else {
            let e = text::joined("unsupported Transform: ", alg.as_str());
            proof {
                lemma_transform_error(doc@, all, i + 1, e@);
            }
            return Err(e);
        }
        i = i + 1;
    }
    assert(all.take(i as int) =~= all);
    Ok(found)
}

/// An error among the first transforms is the error of all of them.
proof fn lemma_transform_error(t: Tree, s: Seq<int>, n: int, e: Seq<char>)
    requires
        0 <= n <= s.len(),
        canonical_transform(t, s.take(n)) == Err::<Option<int>, Seq<char>>(e),
    ensures
        canonical_transform(t, s) == Err::<Option<int>, Seq<char>>(e),
    decreases s.len() - n,
{
    if n == s.len() {
        assert(s.take(n) =~= s);
    } else {
        assert(s.take(n + 1).drop_last() =~= s.take(n));
        lemma_transform_error(t, s, n + 1, e);
    }
}

/// The id that a reference names, and the canonicalization that its digest is
/// taken over.
fn prepare_reference(doc: &Document, signature: usize, reference: usize) -> (r: Result<
    (String, CanonRequest),
    String,
>)
    ensures
        match r {
            Ok((id, request)) => reference_request(doc@, signature as int, reference as int)
                == Ok::<(Seq<char>, c14n::RequestView), Seq<char>>((id@, request@)),
            Err(e) => reference_request(doc@, signature as int, reference as int) == Err::<
                (Seq<char>, c14n::RequestView),
                Seq<char>,
            >(e@),
        },
{
    let uri = attribute(doc, reference, "URI");
    let id = match safe_id(uri.as_str()) {
        Ok(id) => id,
        Err(e) => return Err(e),
    };
    let groups = all(doc, reference, "Transforms");
    let transforms = doc.children(&groups, "Transform", Some(DS));
    let method = match find_canonical_transform(doc, &transforms) {
        Ok(Some(m)) => m,
        Ok(None) => {
            return Err("Reference is missing the exclusive-c14n transform".to_owned());
        },
        Err(e) => return Err(e),
    };
    match doc.find_by_attribute("ID", id.as_str()) {
        None => Err(text::joined3("Reference target #", id.as_str(), " not found")),
        Some(target) => {
            let prefixes = inclusive_prefixes(doc, method);
            Ok((id, CanonRequest { target, exclude: Some(signature), prefixes }))
        },
    }
}

/// Judges a computed digest against what decoding the declared one gave.
pub fn judge_digest(id: &str, computed: &Vec<u8>, declared: Result<Vec<u8>, String>) -> (r: Result<
    (),
    String,
>)
    ensures
        crypto::unit_or_text(r) == digest_verdict(id@, computed@, crypto::bytes_or_text(declared)),
{
    match declared {
        Err(e) => Err(text::joined("DigestValue base64: ", e.as_str())),
        Ok(d) => if same_bytes(computed, &d) {
            Ok(())
        } else {
            Err(text::joined("digest mismatch for Reference #", id))
        },
    }
}

/// Whether two lists hold the same bytes.
fn same_bytes(a: &Vec<u8>, b: &Vec<u8>) -> (r: bool)
    ensures
        r == (a@ == b@),
{
    if a.len() != b.len() {
        return false;
    }
    let mut i: usize = 0;
    while i < a.len()
        invariant
            i <= a.len(),
            a.len() == b.len(),
            forall|j: int| 0 <= j < i ==> a@[j] == b@[j],
        decreases a.len() - i,
    {
        if a[i] != b[i] {
            return false;
        }
        i = i + 1;
    }
    assert(a@ =~= b@);
    true
}

/// Checks the digest of a reference against the canonical octets of what it
/// names.
fn check_reference(doc: &Document, reference: usize, id: &str, octets: &Vec<u8>) -> (r: Result<
    (),
    String,
>)
    ensures
        crypto::unit_or_text(r) == reference_verdict(doc@, reference as int, id@, octets@),
{
    let alg = match algorithm(doc, reference, "DigestMethod") {
        Ok(alg) => alg,
        Err(e) => return Err(e),
    };
    let computed = match digest(alg.as_str(), octets.as_slice()) {
        Ok(d) => d,
        Err(e) => return Err(e),
    };
    let value = match one(doc, reference, "DigestValue") {
        Ok(i) => i,
        Err(e) => return Err(e),
    };
    let content = doc.get_content(value);
    judge_digest(id, &computed, crypto::base64_decode(text::trim(content.as_str())))
}

/// Judges what RSA said.
pub fn conclude(verdict: Result<(), String>, covered: Vec<String>) -> (r: Result<
    Vec<String>,
    String,
>)
    ensures
        strings_or_text(r) == conclusion(crypto::unit_or_text(verdict), covered.deep_view()),
{
    match verdict {
        Ok(_) => Ok(covered),
        Err(e) => Err(text::joined("signature verification failed: ", e.as_str())),
    }
}

/// Checks the signature over the canonical octets of the signed info.
fn check_signature(
    doc: &Document,
    signature: usize,
    key: &RsaKey,
    with_sha256: bool,
    octets: &Vec<u8>,
    covered: Vec<String>,
) -> (r: Result<Vec<String>, String>)
    ensures
        strings_or_text(r) == signature_result(
            doc@,
            signature as int,
            key@,
            with_sha256,
            octets@,
            covered.deep_view(),
        ),
{
    let value = match one(doc, signature, "SignatureValue") {
        Ok(i) => i,
        Err(e) => return Err(e),
    };
    let content = doc.get_content(value);
    let compact = text::strip_white_space(content.as_str());
    let bytes = match crypto::base64_decode(compact.as_str()) {
        Ok(b) => b,
        Err(e) => return Err(text::joined("SignatureValue base64: ", e.as_str())),
    };
    let verdict = if with_sha256 {
        crypto::verify_rsa_sha256(
            key.modulus.as_slice(),
            key.exponent.as_slice(),
            crypto::sha256(octets.as_slice()).as_slice(),
            bytes.as_slice(),
        )
    } else {
        crypto::verify_rsa_sha1(
            key.modulus.as_slice(),
            key.exponent.as_slice(),
            crypto::sha1(octets.as_slice()).as_slice(),
            bytes.as_slice(),
        )
    };
    conclude(verdict, covered)
}

/// Goes on with the next reference, or with the signature where all references
/// have been found right.
fn advance<'a>(
    doc: &'a Document,
    key: &'a RsaKey,
    signature: usize,
    signed_info: usize,
    method: usize,
    with_sha256: bool,
    references: Vec<usize>,
    checked: usize,
    covered: Vec<String>,
) -> (step: VerifyStep<'a>)
    requires
        checked <= references.len(),
    ensures
        forall|canon: Canon| #[trigger]
            step.outcome(canon) == checked_result(
                doc@,
                signature as int,
                signed_info as int,
                method as int,
                key@,
                with_sha256,
                document::ids(references@).skip(checked as int),
                covered.deep_view(),
                canon,
            ),
        step matches VerifyStep::Canonicalize(v) ==> v.remaining() == references.len() - checked
            + 1,
{
    let ghost rest = document::ids(references@).skip(checked as int);
    if checked < references.len() {
        assert(rest.first() == references@[checked as int] as int);
        match prepare_reference(doc, signature, references[checked]) {
            Ok((id, request)) => VerifyStep::Canonicalize(
                Verifier {
                    doc,
                    key,
                    signature,
                    signed_info,
                    method,
                    with_sha256,
                    references,
                    checked,
                    covered,
                    stage: Stage::Reference { id },
                    request,
                },
            ),
            Err(e) => VerifyStep::Done(Err(e)),
        }
    } else {
        let request = CanonRequest {
            target: signed_info,
            exclude: None,
            prefixes: inclusive_prefixes(doc, method),
        };
        VerifyStep::Canonicalize(
            Verifier {
                doc,
                key,
                signature,
                signed_info,
                method,
                with_sha256,
                references,
                checked,
                covered,
                stage: Stage::SignedInfo,
                request,
            },
        )
    }
}

/// Begins to verify the signature element `signature` under `key`. On success
/// the result is the list of the element ids that the signature covers; any
/// failure is an error.
pub fn verify<'a>(doc: &'a Document, signature: usize, key: &'a RsaKey) -> (step: VerifyStep<'a>)
    ensures
        forall|canon: Canon| #[trigger]
            step.outcome(canon) == verification(doc@, signature as int, key@, canon),
        step matches VerifyStep::Canonicalize(v) ==> v.remaining() == canonicalizations(
            doc@,
            signature as int,
        ),
{
    let signed_info = match one(doc, signature, "SignedInfo") {
        Ok(i) => i,
        Err(e) => return VerifyStep::Done(Err(e)),
    };
    let method = match one(doc, signed_info, "CanonicalizationMethod") {
        Ok(i) => i,
        Err(e) => return VerifyStep::Done(Err(e)),
    };
    let c14n_alg = attribute(doc, method, "Algorithm");
    if !text::same(c14n_alg.as_str(), C14N_EXC) {
        return VerifyStep::Done(
            Err(text::joined("unsupported CanonicalizationMethod: ", c14n_alg.as_str())),
        );
    }
    let sig_alg = match algorithm(doc, signed_info, "SignatureMethod") {
        Ok(alg) => alg,
        Err(e) => return VerifyStep::Done(Err(e)),
    };
    let with_sha256 = text::same(sig_alg.as_str(), RSA_SHA256);
    if !with_sha256 && !text::same(sig_alg.as_str(), RSA_SHA1) {
        return VerifyStep::Done(
            Err(text::joined("unsupported SignatureMethod: ", sig_alg.as_str())),
        );
    }
    let references = all(doc, signed_info, "Reference");
    if references.len() == 0 {
        return VerifyStep::Done(Err("SignedInfo has no Reference".to_owned()));
    }
    let covered: Vec<String> = Vec::new();
    proof {
        assert(covered.deep_view() =~= Seq::<Seq<char>>::empty());
        let all = document::ids(references@);
        assert(all.skip(0) =~= all);
    }
    advance(doc, key, signature, signed_info, method, with_sha256, references, 0, covered)
}

impl<'a> Verifier<'a> {
    /// Goes on with the reply to the request. Where the reply is what `canon`
    /// gives for the request, the result stays what it is under `canon`.
    pub fn resume(self, reply: Result<Vec<u8>, String>) -> (step: VerifyStep<'a>)
        ensures
            forall|canon: Canon|
                canon(self.requested()) == crypto::bytes_or_text(reply) ==> #[trigger] step.outcome(
                    canon,
                ) == self.outcome(canon),
            step matches VerifyStep::Canonicalize(v) ==> v.remaining() + 1 == self.remaining(),
    {
        proof {
            use_type_invariant(&self);
        }
        let ghost rest = document::ids(self.references@).skip(self.checked as int);
        let Verifier {
            doc,
            key,
            signature,
            signed_info,
            method,
            with_sha256,
            references,
            checked,
            mut covered,
            stage,
            request,
        } = self;
        let octets = match reply {
            Ok(octets) => octets,
            Err(e) => {
                return VerifyStep::Done(Err(e));
            },
        };
        match stage {
            Stage::Reference { id } => {
                assert(rest.first() == references@[checked as int] as int);
                match check_reference(doc, references[checked], id.as_str(), &octets) {
                    Err(e) => VerifyStep::Done(Err(e)),
                    Ok(_) => {
                        let ghost before = covered.deep_view();
                        let ghost name = id@;
                        covered.push(id);
                        proof {
                            assert(covered.deep_view() =~= before.push(name));
                            assert(rest.drop_first() =~= document::ids(references@).skip(
                                checked + 1,
                            ));
                            assert forall|more: Seq<Seq<char>>|
                                #[trigger] (before.push(name) + more) == before + (seq![name]
                                    + more) by {
                                assert(before.push(name) + more =~= before + (seq![name] + more));
                            }
                        }
                        advance(
                            doc,
                            key,
                            signature,
                            signed_info,
                            method,
                            with_sha256,
                            references,
                            checked + 1,
                            covered,
                        )
                    },
                }
            },
            Stage::SignedInfo => {
                proof {
                    assert(covered.deep_view() + Seq::<Seq<char>>::empty() =~= covered.deep_view());
                }
                VerifyStep::Done(
                    check_signature(doc, signature, key, with_sha256, &octets, covered),
                )
            },
        }
    }
}

} // verus!
