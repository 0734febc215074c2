//! Which signatures, references and certificates are accepted, and what comes of
//! them.

use crate::c14n;
use crate::crypto;
use crate::crypto::RsaKey;
use crate::document;
use crate::document::Document;
use crate::dsig;
use crate::dsig::{Verifier, VerifyStep};
use crate::laws::signature;
use crate::laws::text as words;
use crate::laws::tree;
use crate::text;
use vstd::prelude::*;

verus! {

/// The names of the signature namespace and of the algorithms.
pub proof fn law_algorithm_names()
    ensures
        dsig::DS@ == "http://www.w3.org/2000/09/xmldsig#"@,
        dsig::C14N_EXC@ == "http://www.w3.org/2001/10/xml-exc-c14n#"@,
        dsig::ENVELOPED@ == "http://www.w3.org/2000/09/xmldsig#enveloped-signature"@,
        dsig::RSA_SHA256@ == "http://www.w3.org/2001/04/xmldsig-more#rsa-sha256"@,
        dsig::RSA_SHA1@ == "http://www.w3.org/2000/09/xmldsig#rsa-sha1"@,
        dsig::SHA256_URI@ == "http://www.w3.org/2001/04/xmlenc#sha256"@,
        dsig::SHA1_URI@ == "http://www.w3.org/2000/09/xmldsig#sha1"@,
{
}

/// The views of results keep apart success and failure, and hold what the results
/// hold.
pub proof fn law_result_views(
    bytes: Vec<u8>,
    e: String,
    s: String,
    i: usize,
    list: Vec<String>,
    key: RsaKey,
)
    ensures
        crypto::bytes_or_text(Ok(bytes)) == Ok::<Seq<u8>, Seq<char>>(bytes@),
        crypto::bytes_or_text(Err(e)) == Err::<Seq<u8>, Seq<char>>(e@),
        crypto::unit_or_text(Ok(())) is Ok,
        crypto::unit_or_text(Err(e)) == Err::<(), Seq<char>>(e@),
        dsig::string_or_text(Ok(s)) == Ok::<Seq<char>, Seq<char>>(s@),
        dsig::string_or_text(Err(e)) == Err::<Seq<char>, Seq<char>>(e@),
        dsig::id_or_text(Ok(i)) == Ok::<int, Seq<char>>(i as int),
        dsig::id_or_text(Err(e)) == Err::<int, Seq<char>>(e@),
        dsig::strings_or_text(Ok(list)) == Ok::<Seq<Seq<char>>, Seq<char>>(list.deep_view()),
        dsig::strings_or_text(Err(e)) == Err::<Seq<Seq<char>>, Seq<char>>(e@),
        dsig::key_or_text(Err(e)) == Err::<crypto::KeyView, Seq<char>>(e@),
        dsig::key_or_text(Ok(key)) matches Ok(k) && k.modulus == key.modulus@ && k.exponent
            == key.exponent@,
{
}

// ---------------------------------------------------------------------------
// The trust anchor
// ---------------------------------------------------------------------------
/// A certificate gives a key exactly where the text is a PEM document of a
/// certificate, the certificate can be read, and its key info holds an RSA key;
/// the key is that one.
pub proof fn law_certificate_key(pem: Seq<char>, key: crypto::KeyView)
    ensures
        dsig::certificate_key(pem) == Ok::<crypto::KeyView, Seq<char>>(key) <==> exists|
            der: Seq<u8>,
            info: Seq<u8>,
        |
            {
                &&& crypto::pem_document(pem) == Ok::<(Seq<char>, Seq<u8>), Seq<char>>(
                    ("CERTIFICATE"@, der),
                )
                &&& #[trigger] crypto::certificate_key_info(der) == Ok::<
                    Result<Seq<u8>, Seq<char>>,
                    Seq<char>,
                >(Ok(info))
                &&& #[trigger] crypto::rsa_key_parts(info) == Ok::<(Seq<u8>, Seq<u8>), Seq<char>>(
                    (key.modulus, key.exponent),
                )
            },
{
    if dsig::certificate_key(pem) == Ok::<crypto::KeyView, Seq<char>>(key) {
        let der = crypto::pem_document(pem)->Ok_0.1;
        let info = crypto::certificate_key_info(der)->Ok_0->Ok_0;
        assert(crypto::rsa_key_parts(info) is Ok);
    }
}

/// Why a certificate gives no key: the text of the first step that fails.
pub proof fn law_certificate_refusals(pem: Seq<char>, der: Seq<u8>, info: Seq<u8>, e: Seq<char>)
    ensures
        crypto::pem_document(pem) == Err::<(Seq<char>, Seq<u8>), Seq<char>>(e)
            ==> dsig::certificate_key(pem) == Err::<crypto::KeyView, Seq<char>>(
            "parse IdP certificate PEM: PEM error: "@ + e,
        ),
        (crypto::pem_document(pem) is Ok && crypto::pem_document(pem)->Ok_0.0 != "CERTIFICATE"@)
            ==> dsig::certificate_key(
            pem,
        ) == Err::<crypto::KeyView, Seq<char>>(
            "parse IdP certificate PEM: PEM error: unexpected PEM type label: expecting \"CERTIFICATE\""@,
        ),
        crypto::pem_document(pem) == Ok::<(Seq<char>, Seq<u8>), Seq<char>>(("CERTIFICATE"@, der))
            ==> {
            &&& crypto::certificate_key_info(der) == Err::<Result<Seq<u8>, Seq<char>>, Seq<char>>(e)
                ==> dsig::certificate_key(pem) == Err::<crypto::KeyView, Seq<char>>(
                "parse IdP certificate PEM: "@ + e,
            )
            &&& crypto::certificate_key_info(der) == Ok::<Result<Seq<u8>, Seq<char>>, Seq<char>>(
                Err(e),
            ) ==> dsig::certificate_key(pem) == Err::<crypto::KeyView, Seq<char>>(
                "encode certificate SPKI: "@ + e,
            )
            &&& crypto::certificate_key_info(der) == Ok::<Result<Seq<u8>, Seq<char>>, Seq<char>>(
                Ok(info),
            ) && crypto::rsa_key_parts(info) == Err::<(Seq<u8>, Seq<u8>), Seq<char>>(e)
                ==> dsig::certificate_key(pem) == Err::<crypto::KeyView, Seq<char>>(
                "certificate is not an RSA key: "@ + e,
            )
        },
{
}

/// Reading the trust anchor gives the key of the certificate.
pub proof fn law_trust_anchor(pem: &str, r: Result<RsaKey, String>)
    requires
        call_ensures(dsig::rsa_pubkey_from_cert_pem, (pem,), r),
    ensures
        match r {
            Ok(key) => dsig::certificate_key(pem@) == Ok::<crypto::KeyView, Seq<char>>(key@)
                && key@.modulus == key.modulus@ && key@.exponent == key.exponent@,
            Err(e) => dsig::certificate_key(pem@) == Err::<crypto::KeyView, Seq<char>>(e@),
        },
{
}

// ---------------------------------------------------------------------------
// Elements of a signature
// ---------------------------------------------------------------------------
/// The children of an element in the signature namespace, and the first of them.
pub proof fn law_signature_children(t: dsig::Tree, a: int, local: Seq<char>)
    ensures
        tree::lists(
            dsig::all_of(t, a, local),
            t.len(),
            |i: int|
                tree::is_element(t, i, local, Some("http://www.w3.org/2000/09/xmldsig#"@))
                    && t[i].parent == Some(a),
        ),
        match dsig::one_of(t, a, local) {
            Ok(i) => tree::is_first(
                i,
                t.len(),
                |j: int|
                    tree::is_element(t, j, local, Some("http://www.w3.org/2000/09/xmldsig#"@))
                        && t[j].parent == Some(a),
            ),
            Err(e) => dsig::all_of(t, a, local).len() == 0 && e == "missing element: ./ds:"@
                + local,
        },
{
    let ds = Some("http://www.w3.org/2000/09/xmldsig#"@);
    tree::law_children(t, seq![a], local, ds);
    tree::law_child(t, a, local, ds);
    let s = dsig::all_of(t, a, local);
    let p = |i: int|
        tree::is_element(t, i, local, ds) && t[i].parent is Some && seq![a].contains(
            t[i].parent->Some_0,
        );
    let q = |i: int| tree::is_element(t, i, local, ds) && t[i].parent == Some(a);
    assert(tree::lists(s, t.len(), p));
    assert forall|i: int| #[trigger] s.contains(i) <==> 0 <= i < t.len() && q(i) by {
        if q(i) {
            assert(seq![a][0] == a);
            assert(p(i));
        }
        if s.contains(i) {
            assert(p(i));
        }
    }
    if let Ok(i) = dsig::one_of(t, a, local) {
        let first = |j: int| tree::is_element(t, j, local, ds) && t[j].parent == Some(a);
        assert(tree::is_first(i, t.len(), first));
    }
}

/// The transforms of a reference are the `Transform` children of its `Transforms`
/// children, in document order.
pub proof fn law_transforms(t: dsig::Tree, reference: int)
    ensures
        tree::lists(
            dsig::transforms_of(t, reference),
            t.len(),
            |i: int|
                {
                    let ds = Some("http://www.w3.org/2000/09/xmldsig#"@);
                    &&& tree::is_element(t, i, "Transform"@, ds)
                    &&& t[i].parent matches Some(p)
                    &&& tree::is_element(t, p, "Transforms"@, ds)
                    &&& t[p].parent == Some(reference)
                },
        ),
{
    let ds = Some("http://www.w3.org/2000/09/xmldsig#"@);
    let groups = dsig::all_of(t, reference, "Transforms"@);
    law_signature_children(t, reference, "Transforms"@);
    tree::law_children(t, groups, "Transform"@, ds);
    let s = dsig::transforms_of(t, reference);
    let p = |i: int|
        tree::is_element(t, i, "Transform"@, ds) && t[i].parent is Some && groups.contains(
            t[i].parent->Some_0,
        );
    let g = |i: int|
        tree::is_element(t, i, "Transforms"@, ds) && t[i].parent == Some(reference);
    assert(tree::lists(s, t.len(), p));
    assert(tree::lists(groups, t.len(), g));
    let q = |i: int|
        {
            let ds = Some("http://www.w3.org/2000/09/xmldsig#"@);
            &&& tree::is_element(t, i, "Transform"@, ds)
            &&& t[i].parent matches Some(p)
            &&& tree::is_element(t, p, "Transforms"@, ds)
            &&& t[p].parent == Some(reference)
        };
    assert forall|i: int| #[trigger] s.contains(i) <==> 0 <= i < t.len() && q(i) by {
        if q(i) {
            assert(g(t[i].parent->Some_0));
            assert(groups.contains(t[i].parent->Some_0));
            assert(p(i));
        }
        if s.contains(i) {
            assert(p(i));
            assert(groups.contains(t[i].parent->Some_0));
            assert(g(t[i].parent->Some_0));
        }
    }
}

/// An attribute that is absent counts as empty; the algorithm of a child is its
/// `Algorithm` attribute.
pub proof fn law_algorithm(t: dsig::Tree, a: int, local: Seq<char>, name: Seq<char>)
    ensures
        match document::attribute_of(t, a, name) {
            Some(v) => dsig::attribute_or_empty(t, a, name) == v,
            None => dsig::attribute_or_empty(t, a, name).len() == 0,
        },
        match dsig::one_of(t, a, local) {
            Ok(i) => dsig::algorithm_of(t, a, local) == Ok::<Seq<char>, Seq<char>>(
                dsig::attribute_or_empty(t, i, "Algorithm"@),
            ),
            Err(e) => dsig::algorithm_of(t, a, local) == Err::<Seq<char>, Seq<char>>(e),
        },
{
}

/// The inclusive prefixes are the words of the `PrefixList` of the first
/// `InclusiveNamespaces` child; none where there is no such list.
pub proof fn law_prefixes(t: dsig::Tree, method: int, n: int, list: Seq<char>)
    ensures
        document::child_named(t, method, "InclusiveNamespaces"@, None) == Some(n)
            && document::attribute_of(t, n, "PrefixList"@) == Some(list) ==> exists|
            gaps: Seq<Seq<char>>,
        | #[trigger] words::is_split(list, gaps, dsig::prefixes_of(t, method)),
        document::child_named(t, method, "InclusiveNamespaces"@, None) == Some(n)
            && document::attribute_of(t, n, "PrefixList"@) is None ==> dsig::prefixes_of(
            t,
            method,
        ).len() == 0,
        document::child_named(t, method, "InclusiveNamespaces"@, None) is None
            ==> dsig::prefixes_of(t, method).len() == 0,
{
    words::law_words(list);
    let gaps = choose|gaps: Seq<Seq<char>>| #[trigger]
        words::is_split(list, gaps, text::words(list));
    if document::child_named(t, method, "InclusiveNamespaces"@, None) == Some(n)
        && document::attribute_of(t, n, "PrefixList"@) == Some(list) {
        assert(dsig::prefixes_of(t, method) == text::words(list));
        assert(words::is_split(list, gaps, dsig::prefixes_of(t, method)));
    }
}

// ---------------------------------------------------------------------------
// References
// ---------------------------------------------------------------------------
/// Whether `c` is an ASCII letter or digit, or one of `_`, `-`, `.` and `:`.
pub open spec fn is_plain(c: char) -> bool {
    let n = c as int;
    ||| 48 <= n <= 58
    ||| 65 <= n <= 90
    ||| 97 <= n <= 122
    ||| n == 95
    ||| n == 45
    ||| n == 46
}

/// A reference names an id exactly where its URI is `#` and the id, which is not
/// empty and is made of plain characters.
pub proof fn law_reference_uri(uri: Seq<char>, id: Seq<char>)
    ensures
        dsig::id_of_uri(uri) == Ok::<Seq<char>, Seq<char>>(id) <==> {
            &&& uri == seq!['#'] + id
            &&& id.len() > 0
            &&& forall|i: int| 0 <= i < id.len() ==> is_plain(#[trigger] id[i])
        },
        uri.len() == 0 || uri[0] != '#' ==> dsig::id_of_uri(uri) == Err::<Seq<char>, Seq<char>>(
            "only same-document Reference URIs are supported, got '"@ + uri + "'"@,
        ),
        uri == seq!['#'] + id && (id.len() == 0 || exists|i: int|
            0 <= i < id.len() && !is_plain(#[trigger] id[i])) ==> dsig::id_of_uri(uri) == Err::<
            Seq<char>,
            Seq<char>,
        >("unsafe Reference id '"@ + id + "'"@),
{
    if uri.len() > 0 && uri[0] == '#' {
        assert(uri =~= seq!['#'] + uri.skip(1));
    }
    if uri == seq!['#'] + id {
        assert(uri[0] == '#');
        assert(uri.skip(1) =~= id);
    }
    let rest = uri.skip(1);
    assert forall|i: int| 0 <= i < rest.len() implies is_plain(#[trigger] rest[i])
        == dsig::is_id_char(rest[i]) by {}
    if dsig::is_safe_id(rest) {
        assert forall|i: int| 0 <= i < rest.len() implies is_plain(#[trigger] rest[i]) by {
            assert(dsig::is_id_char(rest[i]));
        }
    }
    if rest.len() > 0 && forall|i: int| 0 <= i < rest.len() ==> is_plain(#[trigger] rest[i]) {
        assert forall|i: int| 0 <= i < rest.len() implies #[trigger] dsig::is_id_char(
            rest[i],
        ) by {
            assert(is_plain(rest[i]));
        }
    }
}

/// A digest is the SHA-256 or the SHA-1 digest of the data, as the method says;
/// any other method is refused.
pub proof fn law_digest(uri: Seq<char>, data: Seq<u8>)
    ensures
        dsig::digest_of("http://www.w3.org/2001/04/xmlenc#sha256"@, data) == Ok::<
            Seq<u8>,
            Seq<char>,
        >(crypto::sha256_digest(data)),
        "http://www.w3.org/2001/04/xmlenc#sha256"@ != "http://www.w3.org/2000/09/xmldsig#sha1"@,
        dsig::digest_of("http://www.w3.org/2000/09/xmldsig#sha1"@, data) == Ok::<
            Seq<u8>,
            Seq<char>,
        >(crypto::sha1_digest(data)),
        uri != "http://www.w3.org/2001/04/xmlenc#sha256"@ && uri
            != "http://www.w3.org/2000/09/xmldsig#sha1"@ ==> dsig::digest_of(uri, data) == Err::<
            Seq<u8>,
            Seq<char>,
        >("unsupported DigestMethod: "@ + uri),
{
    reveal_strlit("http://www.w3.org/2001/04/xmlenc#sha256");
    reveal_strlit("http://www.w3.org/2000/09/xmldsig#sha1");
    assert("http://www.w3.org/2001/04/xmlenc#sha256"@.len()
        != "http://www.w3.org/2000/09/xmldsig#sha1"@.len());
}

/// Whether a transform is exclusive canonicalization.
pub open spec fn canonicalizes(t: dsig::Tree, i: int) -> bool {
    document::attribute_of(t, i, "Algorithm"@) == Some("http://www.w3.org/2001/10/xml-exc-c14n#"@)
}

/// Whether a transform is the enveloped-signature transform.
pub open spec fn envelopes(t: dsig::Tree, i: int) -> bool {
    document::attribute_of(t, i, "Algorithm"@) == Some(
        "http://www.w3.org/2000/09/xmldsig#enveloped-signature"@,
    )
}

/// Transforms are accepted exactly where each is exclusive canonicalization or the
/// enveloped-signature transform; what is found is the last of the former, if
/// there is one.
pub proof fn law_canonical_transform(t: dsig::Tree, s: Seq<int>)
    ensures
        dsig::canonical_transform(t, s) is Ok <==> forall|k: int|
            0 <= k < s.len() ==> canonicalizes(t, #[trigger] s[k]) || envelopes(t, s[k]),
        dsig::canonical_transform(t, s) matches Ok(Some(m)) ==> exists|k: int|
            {
                &&& 0 <= k < s.len()
                &&& #[trigger] s[k] == m
                &&& canonicalizes(t, m)
                &&& forall|j: int| k < j < s.len() ==> !canonicalizes(t, #[trigger] s[j])
            },
        dsig::canonical_transform(t, s) matches Ok(None) ==> forall|k: int|
            0 <= k < s.len() ==> !canonicalizes(t, #[trigger] s[k]),
    decreases s.len(),
{
    reveal_strlit("http://www.w3.org/2001/10/xml-exc-c14n#");
    reveal_strlit("http://www.w3.org/2000/09/xmldsig#enveloped-signature");
    assert("http://www.w3.org/2001/10/xml-exc-c14n#"@.len() == 39);
    assert("http://www.w3.org/2000/09/xmldsig#enveloped-signature"@.len() == 53);
    if s.len() > 0 {
        let init = s.drop_last();
        let last = s[s.len() - 1];
        let alg = dsig::attribute_or_empty(t, last, "Algorithm"@);
        assert(canonicalizes(t, last) <==> alg == dsig::C14N_EXC@);
        assert(envelopes(t, last) <==> alg == dsig::ENVELOPED@);
        law_canonical_transform(t, init);
        if dsig::canonical_transform(t, init) is Ok {
            assert forall|k: int| 0 <= k < s.len() - 1 implies canonicalizes(t, #[trigger] s[k])
                || envelopes(t, s[k]) by {
                assert(init[k] == s[k]);
            }
        } else {
            let k = choose|k: int|
                0 <= k < init.len() && !(canonicalizes(t, #[trigger] init[k]) || envelopes(
                    t,
                    init[k],
                ));
            assert(s[k] == init[k]);
        }
        if let Ok(Some(m)) = dsig::canonical_transform(t, s) {
            if canonicalizes(t, last) {
                assert(s[s.len() - 1] == m);
            } else {
                let k = choose|k: int|
                    {
                        &&& 0 <= k < init.len()
                        &&& #[trigger] init[k] == m
                        &&& canonicalizes(t, m)
                        &&& forall|j: int|
                            k < j < init.len() ==> !canonicalizes(t, #[trigger] init[j])
                    };
                assert(s[k] == m);
                assert forall|j: int| k < j < s.len() implies !canonicalizes(
                    t,
                    #[trigger] s[j],
                ) by {
                    if j < init.len() {
                        assert(init[j] == s[j]);
                    }
                }
            }
        }
        if let Ok(None) = dsig::canonical_transform(t, s) {
            assert forall|k: int| 0 <= k < s.len() implies !canonicalizes(t, #[trigger] s[k]) by {
                if k < init.len() {
                    assert(init[k] == s[k]);
                }
            }
        }
    }
}

/// The first transform that is not known is what is reported.
pub proof fn law_unknown_transform(t: dsig::Tree, s: Seq<int>, k: int)
    requires
        0 <= k < s.len(),
        !canonicalizes(t, s[k]) && !envelopes(t, s[k]),
        forall|j: int| 0 <= j < k ==> canonicalizes(t, #[trigger] s[j]) || envelopes(t, s[j]),
    ensures
        dsig::canonical_transform(t, s) == Err::<Option<int>, Seq<char>>(
            "unsupported Transform: "@ + dsig::attribute_or_empty(t, s[k], "Algorithm"@),
        ),
    decreases s.len(),
{
    reveal_strlit("http://www.w3.org/2001/10/xml-exc-c14n#");
    reveal_strlit("http://www.w3.org/2000/09/xmldsig#enveloped-signature");
    assert("http://www.w3.org/2001/10/xml-exc-c14n#"@.len() == 39);
    assert("http://www.w3.org/2000/09/xmldsig#enveloped-signature"@.len() == 53);
    let init = s.drop_last();
    if k == s.len() - 1 {
        assert forall|j: int| 0 <= j < init.len() implies canonicalizes(t, #[trigger] init[j])
            || envelopes(t, init[j]) by {
            assert(s[j] == init[j]);
        }
        law_canonical_transform(t, init);
    } else {
        assert forall|j: int| 0 <= j < k implies canonicalizes(t, #[trigger] init[j]) || envelopes(
            t,
            init[j],
        ) by {
            assert(s[j] == init[j]);
        }
        assert(init[k] == s[k]);
        law_unknown_transform(t, init, k);
    }
}

/// A reference asks for octets exactly where its URI names an id, its transforms
/// are known and hold exclusive canonicalization, and the id names an element. It
/// asks for those of that element without the signature, under the prefixes of
/// that canonicalization.
pub proof fn law_reference_request(
    t: dsig::Tree,
    signature: int,
    reference: int,
    id: Seq<char>,
    request: c14n::RequestView,
)
    ensures
        dsig::reference_request(t, signature, reference) == Ok::<
            (Seq<char>, c14n::RequestView),
            Seq<char>,
        >((id, request)) <==> {
            &&& dsig::id_of_uri(dsig::attribute_or_empty(t, reference, "URI"@)) == Ok::<
                Seq<char>,
                Seq<char>,
            >(id)
            &&& document::element_with_attribute(t, "ID"@, id) == Some(request.target)
            &&& request.exclude == Some(signature)
            &&& exists|m: int|
                dsig::canonical_transform(t, dsig::transforms_of(t, reference)) == Ok::<
                    Option<int>,
                    Seq<char>,
                >(Some(m)) && request.prefixes == #[trigger] dsig::prefixes_of(t, m)
        },
{
}

/// Why a reference asks for no octets: the text of the first step that fails.
pub proof fn law_reference_refusals(
    t: dsig::Tree,
    signature: int,
    reference: int,
    id: Seq<char>,
    e: Seq<char>,
)
    ensures
        ({
            let uri = dsig::id_of_uri(dsig::attribute_or_empty(t, reference, "URI"@));
            let transform = dsig::canonical_transform(t, dsig::transforms_of(t, reference));
            let request = dsig::reference_request(t, signature, reference);
            &&& uri == Err::<Seq<char>, Seq<char>>(e) ==> request == Err::<
                (Seq<char>, c14n::RequestView),
                Seq<char>,
            >(e)
            &&& uri == Ok::<Seq<char>, Seq<char>>(id) ==> {
                &&& transform == Err::<Option<int>, Seq<char>>(e) ==> request == Err::<
                    (Seq<char>, c14n::RequestView),
                    Seq<char>,
                >(e)
                &&& transform == Ok::<Option<int>, Seq<char>>(None) ==> request == Err::<
                    (Seq<char>, c14n::RequestView),
                    Seq<char>,
                >("Reference is missing the exclusive-c14n transform"@)
                &&& (transform is Ok && transform->Ok_0 is Some
                    && document::element_with_attribute(t, "ID"@, id) is None) ==> request == Err::<(Seq<char>, c14n::RequestView), Seq<char>>(
                    "Reference target #"@ + id + " not found"@,
                )
            }
        }),
{
}

/// Whether a reference declares, in base64 with white space around it or not, the
/// SHA-256 or the SHA-1 digest of `octets`, as its digest method says.
pub open spec fn declares_digest(t: dsig::Tree, reference: int, octets: Seq<u8>) -> bool {
    let method = dsig::algorithm_of(t, reference, "DigestMethod"@);
    &&& dsig::one_of(t, reference, "DigestValue"@) matches Ok(v)
    &&& crypto::base64_decoding(text::trimmed(document::content_of(t, v))) matches Ok(declared)
    &&& {
        ||| method == Ok::<Seq<char>, Seq<char>>("http://www.w3.org/2001/04/xmlenc#sha256"@)
            && declared == crypto::sha256_digest(octets)
        ||| method == Ok::<Seq<char>, Seq<char>>("http://www.w3.org/2000/09/xmldsig#sha1"@)
            && declared == crypto::sha1_digest(octets)
    }
}

/// A reference is found right exactly where it asks for octets, they can be made,
/// and it declares their digest. What it covers is the id that it names.
pub proof fn law_reference_is_right(
    t: dsig::Tree,
    signature: int,
    reference: int,
    canon: dsig::Canon,
    id: Seq<char>,
)
    ensures
        dsig::reference_result(t, signature, reference, canon) == Ok::<Seq<char>, Seq<char>>(id)
            <==> {
            &&& dsig::reference_request(t, signature, reference) matches Ok((name, request))
            &&& name == id
            &&& canon(request) matches Ok(octets)
            &&& declares_digest(t, reference, octets)
        },
{
    reveal_strlit("http://www.w3.org/2001/04/xmlenc#sha256");
    reveal_strlit("http://www.w3.org/2000/09/xmldsig#sha1");
    assert("http://www.w3.org/2001/04/xmlenc#sha256"@.len()
        != "http://www.w3.org/2000/09/xmldsig#sha1"@.len());
}

/// Why a reference is not found right: the text of the first step that fails.
pub proof fn law_digest_refusals(
    t: dsig::Tree,
    reference: int,
    id: Seq<char>,
    octets: Seq<u8>,
    alg: Seq<char>,
    d: Seq<u8>,
    v: int,
    e: Seq<char>,
)
    ensures
        ({
            let method = dsig::algorithm_of(t, reference, "DigestMethod"@);
            let value = dsig::one_of(t, reference, "DigestValue"@);
            let declared = crypto::base64_decoding(text::trimmed(document::content_of(t, v)));
            let verdict = dsig::reference_verdict(t, reference, id, octets);
            &&& method == Err::<Seq<char>, Seq<char>>(e) ==> verdict == Err::<(), Seq<char>>(e)
            &&& method == Ok::<Seq<char>, Seq<char>>(alg) ==> {
                &&& dsig::digest_of(alg, octets) == Err::<Seq<u8>, Seq<char>>(e) ==> verdict
                    == Err::<(), Seq<char>>(e)
                &&& dsig::digest_of(alg, octets) == Ok::<Seq<u8>, Seq<char>>(d) ==> {
                    &&& value == Err::<int, Seq<char>>(e) ==> verdict == Err::<(), Seq<char>>(e)
                    &&& value == Ok::<int, Seq<char>>(v) ==> {
                        &&& declared == Err::<Seq<u8>, Seq<char>>(e) ==> verdict == Err::<
                            (),
                            Seq<char>,
                        >("DigestValue base64: "@ + e)
                        &&& declared == Ok::<Seq<u8>, Seq<char>>(d) ==> verdict is Ok
                        &&& (declared is Ok && declared->Ok_0 != d) ==> verdict == Err::<
                            (),
                            Seq<char>,
                        >("digest mismatch for Reference #"@ + id)
                    }
                }
            }
        }),
{
}

// ---------------------------------------------------------------------------
// Signatures
// ---------------------------------------------------------------------------
/// What RSA says is asked of the key, the digest of the octets that the method
/// names, and the signature, whatever their sizes.
pub proof fn law_rsa(key: crypto::KeyView, octets: Seq<u8>, bytes: Seq<u8>)
    ensures
        dsig::rsa_verdict(key, true, octets, bytes) == crypto::rsa_sha256_verification(
            key.modulus,
            key.exponent,
            crypto::sha256_digest(octets),
            bytes,
        ),
        dsig::rsa_verdict(key, false, octets, bytes) == crypto::rsa_sha1_verification(
            key.modulus,
            key.exponent,
            crypto::sha1_digest(octets),
            bytes,
        ),
{
}

/// References that are all right cover their ids, in order.
proof fn lemma_right_references(
    t: dsig::Tree,
    signature: int,
    s: Seq<int>,
    canon: dsig::Canon,
    covered: Seq<Seq<char>>,
)
    requires
        covered.len() == s.len(),
        forall|k: int|
            0 <= k < s.len() ==> #[trigger] dsig::reference_result(t, signature, s[k], canon)
                == Ok::<Seq<char>, Seq<char>>(covered[k]),
    ensures
        dsig::references_result(t, signature, s, canon) == Ok::<Seq<Seq<char>>, Seq<char>>(covered),
    decreases s.len(),
{
    if s.len() > 0 {
        assert(dsig::reference_result(t, signature, s[0], canon) is Ok);
        let rest = s.drop_first();
        let more = covered.drop_first();
        assert forall|k: int| 0 <= k < rest.len() implies #[trigger] dsig::reference_result(
            t,
            signature,
            rest[k],
            canon,
        ) == Ok::<Seq<char>, Seq<char>>(more[k]) by {
            assert(rest[k] == s[k + 1]);
            assert(dsig::reference_result(t, signature, s[k + 1], canon) is Ok);
        }
        lemma_right_references(t, signature, rest, canon, more);
        assert(covered =~= seq![covered[0]] + more);
    } else {
        assert(covered =~= Seq::empty());
    }
}

/// A signature is accepted exactly where it is signed (its signed info is
/// canonicalized exclusively and RSA accepts the signature value over its octets
/// under the key) and it has references, each of which is right; what it covers
/// are the ids of its references, in order.
pub proof fn law_signature_is_accepted(
    t: dsig::Tree,
    signature: int,
    key: crypto::KeyView,
    canon: dsig::Canon,
    covered: Seq<Seq<char>>,
)
    ensures
        dsig::verification(t, signature, key, canon) == Ok::<Seq<Seq<char>>, Seq<char>>(covered)
            <==> exists|p: signature::SignatureParts|
            {
                let references = dsig::all_of(t, p.signed_info, "Reference"@);
                &&& #[trigger] signature::is_signed(t, signature, key, canon, p)
                &&& covered.len() == references.len()
                &&& covered.len() > 0
                &&& forall|k: int|
                    0 <= k < references.len() ==> #[trigger] dsig::reference_result(
                        t,
                        signature,
                        references[k],
                        canon,
                    ) == Ok::<Seq<char>, Seq<char>>(covered[k])
            },
{
    if dsig::verification(t, signature, key, canon) == Ok::<Seq<Seq<char>>, Seq<char>>(covered) {
        signature::law_accepted_signature(t, signature, key, canon, covered);
    }
    if exists|p: signature::SignatureParts|
        {
            let references = dsig::all_of(t, p.signed_info, "Reference"@);
            &&& #[trigger] signature::is_signed(t, signature, key, canon, p)
            &&& covered.len() == references.len()
            &&& covered.len() > 0
            &&& forall|k: int|
                0 <= k < references.len() ==> #[trigger] dsig::reference_result(
                    t,
                    signature,
                    references[k],
                    canon,
                ) == Ok::<Seq<char>, Seq<char>>(covered[k])
        } {
        let p = choose|p: signature::SignatureParts|
            {
                let references = dsig::all_of(t, p.signed_info, "Reference"@);
                &&& #[trigger] signature::is_signed(t, signature, key, canon, p)
                &&& covered.len() == references.len()
                &&& covered.len() > 0
                &&& forall|k: int|
                    0 <= k < references.len() ==> #[trigger] dsig::reference_result(
                        t,
                        signature,
                        references[k],
                        canon,
                    ) == Ok::<Seq<char>, Seq<char>>(covered[k])
            };
        lemma_signed_is_accepted(t, signature, key, canon, p, covered);
    }
}

/// A signature with the given parts and right references is accepted.
proof fn lemma_signed_is_accepted(
    t: dsig::Tree,
    signature: int,
    key: crypto::KeyView,
    canon: dsig::Canon,
    p: signature::SignatureParts,
    covered: Seq<Seq<char>>,
)
    requires
        signature::is_signed(t, signature, key, canon, p),
        covered.len() == dsig::all_of(t, p.signed_info, "Reference"@).len(),
        covered.len() > 0,
        forall|k: int|
            0 <= k < covered.len() ==> #[trigger] dsig::reference_result(
                t,
                signature,
                dsig::all_of(t, p.signed_info, "Reference"@)[k],
                canon,
            ) == Ok::<Seq<char>, Seq<char>>(covered[k]),
    ensures
        dsig::verification(t, signature, key, canon) == Ok::<Seq<Seq<char>>, Seq<char>>(covered),
{
    reveal_strlit("http://www.w3.org/2001/04/xmldsig-more#rsa-sha256");
    reveal_strlit("http://www.w3.org/2000/09/xmldsig#rsa-sha1");
    let references = dsig::all_of(t, p.signed_info, "Reference"@);
    lemma_right_references(t, signature, references, canon, covered);
    assert(Seq::<Seq<char>>::empty() + covered =~= covered);
    let alg = dsig::algorithm_of(t, p.signed_info, "SignatureMethod"@)->Ok_0;
    let with_sha256 = alg == dsig::RSA_SHA256@;
    assert(dsig::rsa_verdict(key, with_sha256, p.octets, p.bytes) is Ok);
    assert(dsig::signature_result(t, signature, key, with_sha256, p.octets, covered) == Ok::<
        Seq<Seq<char>>,
        Seq<char>,
    >(covered));
}

/// The signed info itself is canonicalized whole, under the prefixes of its
/// canonicalization method.
pub proof fn law_signed_info_request(t: dsig::Tree, signed_info: int, method: int)
    ensures
        ({
            let request = dsig::signed_info_request(t, signed_info, method);
            &&& request.target == signed_info
            &&& request.exclude is None
            &&& request.prefixes == dsig::prefixes_of(t, method)
        }),
{
}

/// Why a signature is refused before anything is canonicalized: the text of the
/// first step that fails.
pub proof fn law_signature_refusals(
    t: dsig::Tree,
    signature: int,
    key: crypto::KeyView,
    canon: dsig::Canon,
    signed_info: int,
    method: int,
    alg: Seq<char>,
    e: Seq<char>,
)
    ensures
        ({
            let info = dsig::one_of(t, signature, "SignedInfo"@);
            let c14n_method = dsig::one_of(t, signed_info, "CanonicalizationMethod"@);
            let c14n_alg = dsig::attribute_or_empty(t, method, "Algorithm"@);
            let sig_alg = dsig::algorithm_of(t, signed_info, "SignatureMethod"@);
            let result = dsig::verification(t, signature, key, canon);
            &&& info == Err::<int, Seq<char>>(e) ==> result == Err::<Seq<Seq<char>>, Seq<char>>(e)
            &&& info == Ok::<int, Seq<char>>(signed_info) ==> {
                &&& c14n_method == Err::<int, Seq<char>>(e) ==> result == Err::<
                    Seq<Seq<char>>,
                    Seq<char>,
                >(e)
                &&& c14n_method == Ok::<int, Seq<char>>(method) ==> {
                    &&& c14n_alg != "http://www.w3.org/2001/10/xml-exc-c14n#"@ ==> result == Err::<
                        Seq<Seq<char>>,
                        Seq<char>,
                    >("unsupported CanonicalizationMethod: "@ + c14n_alg)
                    &&& c14n_alg == "http://www.w3.org/2001/10/xml-exc-c14n#"@ ==> {
                        &&& sig_alg == Err::<Seq<char>, Seq<char>>(e) ==> result == Err::<
                            Seq<Seq<char>>,
                            Seq<char>,
                        >(e)
                        &&& sig_alg == Ok::<Seq<char>, Seq<char>>(alg) && alg
                            != "http://www.w3.org/2001/04/xmldsig-more#rsa-sha256"@ && alg
                            != "http://www.w3.org/2000/09/xmldsig#rsa-sha1"@ ==> result == Err::<
                            Seq<Seq<char>>,
                            Seq<char>,
                        >("unsupported SignatureMethod: "@ + alg)
                        &&& (sig_alg == Ok::<Seq<char>, Seq<char>>(
                            "http://www.w3.org/2001/04/xmldsig-more#rsa-sha256"@,
                        ) || sig_alg == Ok::<Seq<char>, Seq<char>>(
                            "http://www.w3.org/2000/09/xmldsig#rsa-sha1"@,
                        )) && dsig::all_of(t, signed_info, "Reference"@).len() == 0 ==> result
                            == Err::<Seq<Seq<char>>, Seq<char>>("SignedInfo has no Reference"@)
                    }
                }
            }
        }),
{
}

/// Why a signature with right references is refused: the text of the first step
/// that fails.
pub proof fn law_value_refusals(
    t: dsig::Tree,
    signature: int,
    key: crypto::KeyView,
    with_sha256: bool,
    octets: Seq<u8>,
    covered: Seq<Seq<char>>,
    v: int,
    bytes: Seq<u8>,
    e: Seq<char>,
)
    ensures
        ({
            let value = dsig::one_of(t, signature, "SignatureValue"@);
            let decoded = crypto::base64_decoding(
                text::without_white_space(document::content_of(t, v)),
            );
            let result = dsig::signature_result(t, signature, key, with_sha256, octets, covered);
            &&& value == Err::<int, Seq<char>>(e) ==> result == Err::<Seq<Seq<char>>, Seq<char>>(e)
            &&& value == Ok::<int, Seq<char>>(v) ==> {
                &&& decoded == Err::<Seq<u8>, Seq<char>>(e) ==> result == Err::<
                    Seq<Seq<char>>,
                    Seq<char>,
                >("SignatureValue base64: "@ + e)
                &&& decoded == Ok::<Seq<u8>, Seq<char>>(bytes) && dsig::rsa_verdict(
                    key,
                    with_sha256,
                    octets,
                    bytes,
                ) == Err::<(), Seq<char>>(e) ==> result == Err::<Seq<Seq<char>>, Seq<char>>(
                    "signature verification failed: "@ + e,
                )
            }
        }),
{
}

/// The first reference that is not right is why a signature is refused.
pub proof fn law_first_wrong_reference(
    t: dsig::Tree,
    signature: int,
    s: Seq<int>,
    canon: dsig::Canon,
    k: int,
    e: Seq<char>,
)
    requires
        0 <= k < s.len(),
        dsig::reference_result(t, signature, s[k], canon) == Err::<Seq<char>, Seq<char>>(e),
        forall|j: int|
            0 <= j < k ==> #[trigger] dsig::reference_result(t, signature, s[j], canon) is Ok,
    ensures
        dsig::references_result(t, signature, s, canon) == Err::<Seq<Seq<char>>, Seq<char>>(e),
    decreases s.len(),
{
    if k > 0 {
        let rest = s.drop_first();
        assert(dsig::reference_result(t, signature, s[0], canon) is Ok);
        assert forall|j: int| 0 <= j < k - 1 implies #[trigger] dsig::reference_result(
            t,
            signature,
            rest[j],
            canon,
        ) is Ok by {
            assert(rest[j] == s[j + 1]);
            assert(dsig::reference_result(t, signature, s[j + 1], canon) is Ok);
        }
        assert(rest[k - 1] == s[k]);
        law_first_wrong_reference(t, signature, rest, canon, k - 1, e);
    }
}

/// Verification asks once for each reference, and once for the signed info; without
/// a signed info it asks for nothing.
pub proof fn law_number_of_requests(t: dsig::Tree, signature: int, signed_info: int)
    ensures
        dsig::one_of(t, signature, "SignedInfo"@) == Ok::<int, Seq<char>>(signed_info)
            ==> dsig::canonicalizations(t, signature) == dsig::all_of(
            t,
            signed_info,
            "Reference"@,
        ).len() + 1,
        dsig::one_of(t, signature, "SignedInfo"@) is Err ==> dsig::canonicalizations(t, signature)
            == 0,
{
}

/// Whether `steps` is a run of a verification in which every request is answered
/// as `canon` says.
pub open spec fn is_run<'a>(
    steps: Seq<VerifyStep<'a>>,
    replies: Seq<Result<Vec<u8>, String>>,
    canon: dsig::Canon,
) -> bool {
    &&& steps.len() == replies.len() + 1
    &&& forall|k: int|
        #![trigger replies[k]]
        0 <= k < replies.len() ==> {
            &&& steps[k] matches VerifyStep::Canonicalize(v)
            &&& canon(v.requested()) == crypto::bytes_or_text(replies[k])
            &&& call_ensures(Verifier::<'a>::resume, (v, replies[k]), steps[k + 1])
        }
}

/// The result stays the same all along a run.
proof fn lemma_run<'a>(
    steps: Seq<VerifyStep<'a>>,
    replies: Seq<Result<Vec<u8>, String>>,
    canon: dsig::Canon,
    k: int,
)
    requires
        is_run(steps, replies, canon),
        0 <= k < steps.len(),
    ensures
        steps[k].outcome(canon) == steps[0].outcome(canon),
    decreases k,
{
    if k > 0 {
        lemma_run(steps, replies, canon, k - 1);
        let reply = replies[k - 1];
        assert(steps[k - 1] is Canonicalize);
    }
}

/// However many requests it takes, a verification that is answered as `canon` says
/// accepts exactly the signatures that are to be accepted under `canon`, and gives
/// the ids that they cover.
pub proof fn law_verification_run<'a>(
    doc: &'a Document,
    signature: usize,
    key: &'a RsaKey,
    canon: dsig::Canon,
    steps: Seq<VerifyStep<'a>>,
    replies: Seq<Result<Vec<u8>, String>>,
)
    requires
        is_run(steps, replies, canon),
        call_ensures(dsig::verify, (doc, signature, key), steps[0]),
        steps.last() is Done,
    ensures
        steps.last() matches VerifyStep::Done(r) && match r {
            Ok(covered) => dsig::verification(doc@, signature as int, key@, canon) == Ok::<
                Seq<Seq<char>>,
                Seq<char>,
            >(covered.deep_view()),
            Err(e) => dsig::verification(doc@, signature as int, key@, canon) == Err::<
                Seq<Seq<char>>,
                Seq<char>,
            >(e@),
        },
{
    lemma_run(steps, replies, canon, replies.len() as int);
}

} // verus!
