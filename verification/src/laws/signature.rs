//! What holds of signatures.

use crate::c14n;
use crate::crypto;
use crate::document;
use crate::dsig;
use crate::laws::assertion;
use crate::text;
use vstd::prelude::*;

verus! {

/// The parts of a signature that has been accepted.
pub struct SignatureParts {
    pub signed_info: int,
    pub method: int,
    pub value: int,
    pub octets: Seq<u8>,
    pub bytes: Seq<u8>,
}

/// Whether RSA PKCS#1 v1.5 accepts `bytes` as a signature over the SHA-256 digest,
/// or the SHA-1 digest, of `octets` under `key`.
pub open spec fn rsa_accepts(
    key: crypto::KeyView,
    with_sha256: bool,
    octets: Seq<u8>,
    bytes: Seq<u8>,
) -> bool {
    &&& with_sha256 ==> crypto::rsa_sha256_verification(
        key.modulus,
        key.exponent,
        crypto::sha256_digest(octets),
        bytes,
    ) is Ok
    &&& !with_sha256 ==> crypto::rsa_sha1_verification(
        key.modulus,
        key.exponent,
        crypto::sha1_digest(octets),
        bytes,
    ) is Ok
}

/// Whether `p` are the parts of the signature element `signature`: its signed
/// info, canonicalized exclusively, whose octets the decoded signature value
/// signs under `key` with RSA-SHA256 or RSA-SHA1.
pub open spec fn is_signed(
    t: dsig::Tree,
    signature: int,
    key: crypto::KeyView,
    canon: dsig::Canon,
    p: SignatureParts,
) -> bool {
    let alg = dsig::algorithm_of(t, p.signed_info, "SignatureMethod"@);
    &&& dsig::one_of(t, signature, "SignedInfo"@) == Ok::<int, Seq<char>>(p.signed_info)
    &&& dsig::one_of(t, p.signed_info, "CanonicalizationMethod"@) == Ok::<int, Seq<char>>(p.method)
    &&& dsig::attribute_or_empty(t, p.method, "Algorithm"@) == dsig::C14N_EXC@
    &&& alg == Ok::<Seq<char>, Seq<char>>(dsig::RSA_SHA256@) || alg == Ok::<Seq<char>, Seq<char>>(
        dsig::RSA_SHA1@,
    )
    &&& canon(dsig::signed_info_request(t, p.signed_info, p.method)) == Ok::<Seq<u8>, Seq<char>>(
        p.octets,
    )
    &&& dsig::one_of(t, signature, "SignatureValue"@) == Ok::<int, Seq<char>>(p.value)
    &&& crypto::base64_decoding(text::without_white_space(document::content_of(t, p.value)))
        == Ok::<Seq<u8>, Seq<char>>(p.bytes)
    &&& rsa_accepts(key, alg == Ok::<Seq<char>, Seq<char>>(dsig::RSA_SHA256@), p.octets, p.bytes)
}

/// The ids that the references cover are those of the references one by one.
proof fn lemma_references(
    t: dsig::Tree,
    signature: int,
    s: Seq<int>,
    canon: dsig::Canon,
    covered: Seq<Seq<char>>,
)
    requires
        dsig::references_result(t, signature, s, canon) == Ok::<Seq<Seq<char>>, Seq<char>>(covered),
    ensures
        covered.len() == s.len(),
        forall|k: int|
            0 <= k < s.len() ==> #[trigger] dsig::reference_result(t, signature, s[k], canon) == Ok::<
                Seq<char>,
                Seq<char>,
            >(covered[k]),
    decreases s.len(),
{
    if s.len() > 0 {
        let rest = covered.drop_first();
        assert(covered =~= seq![covered[0]] + rest);
        let tail = dsig::references_result(t, signature, s.drop_first(), canon);
        assert(tail matches Ok(more) && covered == seq![covered[0]] + more);
        assert(tail->Ok_0 =~= rest);
        lemma_references(t, signature, s.drop_first(), canon, rest);
        assert forall|k: int| 0 <= k < s.len() implies #[trigger] dsig::reference_result(
            t,
            signature,
            s[k],
            canon,
        ) == Ok::<Seq<char>, Seq<char>>(covered[k]) by {
            if k > 0 {
                assert(s.drop_first()[k - 1] == s[k]);
                assert(rest[k - 1] == covered[k]);
            }
        }
    }
}

/// A signature is accepted only if it is an RSA-SHA256 or RSA-SHA1 signature
/// over the exclusive canonical form of its signed info under the configured
/// key, and every one of its references, of which there is at least one, has
/// been found right. The ids that it covers are those of its references, in
/// order.
pub proof fn law_accepted_signature(
    t: dsig::Tree,
    signature: int,
    key: crypto::KeyView,
    canon: dsig::Canon,
    covered: Seq<Seq<char>>,
)
    requires
        dsig::verification(t, signature, key, canon) == Ok::<Seq<Seq<char>>, Seq<char>>(covered),
    ensures
        exists|p: SignatureParts|
            {
                let references = dsig::all_of(t, p.signed_info, "Reference"@);
                &&& #[trigger] is_signed(t, signature, key, canon, p)
                &&& covered.len() == references.len()
                &&& covered.len() > 0
                &&& forall|k: int|
                    0 <= k < references.len() ==> #[trigger] dsig::reference_result(
                        t,
                        signature,
                        references[k],
                        canon,
                    ) == Ok::<Seq<char>, Seq<char>>(covered[k])
            },
{
    let signed_info = dsig::one_of(t, signature, "SignedInfo"@)->Ok_0;
    let method = dsig::one_of(t, signed_info, "CanonicalizationMethod"@)->Ok_0;
    let alg = dsig::algorithm_of(t, signed_info, "SignatureMethod"@)->Ok_0;
    let references = dsig::all_of(t, signed_info, "Reference"@);
    let value = dsig::one_of(t, signature, "SignatureValue"@)->Ok_0;
    let p = SignatureParts {
        signed_info,
        method,
        value,
        octets: canon(dsig::signed_info_request(t, signed_info, method))->Ok_0,
        bytes: crypto::base64_decoding(
            text::without_white_space(document::content_of(t, value)),
        )->Ok_0,
    };
    let ids = dsig::references_result(t, signature, references, canon)->Ok_0;
    assert(Seq::<Seq<char>>::empty() + ids =~= ids);
    lemma_references(t, signature, references, canon, covered);
    assert(is_signed(t, signature, key, canon, p));
}

/// Where transforms are accepted, each is the enveloped-signature transform or
/// exclusive canonicalization, and the one that is found is among them.
proof fn lemma_transforms(t: dsig::Tree, s: Seq<int>, found: Option<int>)
    requires
        dsig::canonical_transform(t, s) == Ok::<Option<int>, Seq<char>>(found),
    ensures
        forall|k: int|
            0 <= k < s.len() ==> is_known_transform(t, #[trigger] s[k]),
        found matches Some(m) ==> s.contains(m) && dsig::attribute_or_empty(t, m, "Algorithm"@)
            == dsig::C14N_EXC@,
    decreases s.len(),
{
    if s.len() > 0 {
        let earlier = dsig::canonical_transform(t, s.drop_last())->Ok_0;
        lemma_transforms(t, s.drop_last(), earlier);
        assert forall|k: int| 0 <= k < s.len() implies is_known_transform(t, #[trigger] s[k]) by {
            if k < s.len() - 1 {
                assert(s.drop_last()[k] == s[k]);
            }
        }
        match found {
            Some(m) => if earlier == Some(m) {
                let k = choose|k: int| 0 <= k < s.drop_last().len() && s.drop_last()[k] == m;
                assert(s[k] == m);
            } else {
                assert(s[s.len() - 1] == m);
            },
            None => {},
        }
    }
}

/// Whether a transform is the enveloped-signature transform or exclusive
/// canonicalization.
pub open spec fn is_known_transform(t: dsig::Tree, transform: int) -> bool {
    let alg = dsig::attribute_or_empty(t, transform, "Algorithm"@);
    alg == dsig::ENVELOPED@ || alg == dsig::C14N_EXC@
}

/// Whether a reference names SHA-256 or SHA-1 as its digest method.
pub open spec fn has_known_digest(t: dsig::Tree, reference: int) -> bool {
    let alg = dsig::algorithm_of(t, reference, "DigestMethod"@);
    alg == Ok::<Seq<char>, Seq<char>>(dsig::SHA256_URI@) || alg == Ok::<Seq<char>, Seq<char>>(
        dsig::SHA1_URI@,
    )
}

/// Whether a reference has no other transform or digest method than the known
/// ones.
pub open spec fn has_known_algorithms(t: dsig::Tree, reference: int) -> bool {
    &&& has_known_digest(t, reference)
    &&& forall|k: int|
        0 <= k < dsig::transforms_of(t, reference).len() ==> is_known_transform(
            t,
            #[trigger] dsig::transforms_of(t, reference)[k],
        )
}

/// A reference is found right only if it is a same-document reference to a safe
/// id; it has no transform but the enveloped-signature transform and exclusive
/// canonicalization, and does have the latter; the first element with this `ID`
/// is what it digests, without the signature itself; and the SHA-256 or SHA-1
/// digest of its canonical octets is the one that it declares.
pub proof fn law_covered_reference(
    t: dsig::Tree,
    signature: int,
    reference: int,
    canon: dsig::Canon,
    id: Seq<char>,
)
    requires
        dsig::reference_result(t, signature, reference, canon) == Ok::<Seq<char>, Seq<char>>(id),
    ensures
        dsig::is_safe_id(id),
        dsig::attribute_or_empty(t, reference, "URI"@) == seq!['#'] + id,
        has_known_algorithms(t, reference),
        exists|m: int| #[trigger]
            dsig::transforms_of(t, reference).contains(m) && dsig::attribute_or_empty(
                t,
                m,
                "Algorithm"@,
            ) == dsig::C14N_EXC@,
        dsig::reference_request(t, signature, reference) matches Ok((name, request)) && {
            &&& name == id
            &&& document::element_with_attribute(t, "ID"@, id) == Some(request.target)
            &&& request.exclude == Some(signature)
            &&& canon(request) matches Ok(octets)
            &&& dsig::one_of(t, reference, "DigestValue"@) matches Ok(value)
            &&& crypto::base64_decoding(text::trimmed(document::content_of(t, value))) == Ok::<
                Seq<u8>,
                Seq<char>,
            >(dsig::digest_of(dsig::algorithm_of(t, reference, "DigestMethod"@)->Ok_0, octets)->Ok_0)
        },
{
    let uri = dsig::attribute_or_empty(t, reference, "URI"@);
    assert(uri =~= seq!['#'] + uri.skip(1));
    let transforms = dsig::transforms_of(t, reference);
    let found = dsig::canonical_transform(t, transforms)->Ok_0;
    lemma_transforms(t, transforms, found);
    assert(transforms.contains(found->Some_0));
}

/// Verification fails closed: another canonicalization than the exclusive one,
/// another signature method than RSA-SHA256 and RSA-SHA1, or a reference with
/// another transform or digest method than the known ones, is refused, whatever
/// the key and the octets.
pub proof fn law_unknown_algorithm_refused(
    t: dsig::Tree,
    signature: int,
    signed_info: int,
    key: crypto::KeyView,
    canon: dsig::Canon,
)
    requires
        dsig::one_of(t, signature, "SignedInfo"@) == Ok::<int, Seq<char>>(signed_info),
        ({
            let c14n_alg = dsig::algorithm_of(t, signed_info, "CanonicalizationMethod"@);
            let sig_alg = dsig::algorithm_of(t, signed_info, "SignatureMethod"@);
            ||| c14n_alg != Ok::<Seq<char>, Seq<char>>(dsig::C14N_EXC@)
            ||| sig_alg != Ok::<Seq<char>, Seq<char>>(dsig::RSA_SHA256@) && sig_alg != Ok::<
                Seq<char>,
                Seq<char>,
            >(dsig::RSA_SHA1@)
            ||| exists|r: int| #[trigger]
                dsig::all_of(t, signed_info, "Reference"@).contains(r) && !has_known_algorithms(t, r)
        }),
    ensures
        dsig::verification(t, signature, key, canon) is Err,
{
    if let Ok(covered) = dsig::verification(t, signature, key, canon) {
        law_accepted_signature(t, signature, key, canon, covered);
        let references = dsig::all_of(t, signed_info, "Reference"@);
        assert forall|r: int| #[trigger] references.contains(r) implies has_known_algorithms(
            t,
            r,
        ) by {
            let k = choose|k: int| 0 <= k < references.len() && references[k] == r;
            assert(dsig::reference_result(t, signature, references[k], canon) is Ok);
            law_covered_reference(t, signature, r, canon, covered[k]);
        }
    }
}

/// Tampering is refused: where a signature is accepted and what one of its
/// references names changes to octets with another digest, the signature is no
/// longer accepted.
pub proof fn law_tampering_refused(
    t: dsig::Tree,
    signature: int,
    signed_info: int,
    k: int,
    key: crypto::KeyView,
    canon: dsig::Canon,
    tampered: dsig::Canon,
)
    requires
        dsig::verification(t, signature, key, canon) is Ok,
        dsig::one_of(t, signature, "SignedInfo"@) == Ok::<int, Seq<char>>(signed_info),
        0 <= k < dsig::all_of(t, signed_info, "Reference"@).len(),
        ({
            let reference = dsig::all_of(t, signed_info, "Reference"@)[k];
            let request = dsig::reference_request(t, signature, reference)->Ok_0.1;
            let alg = dsig::algorithm_of(t, reference, "DigestMethod"@)->Ok_0;
            tampered(request) matches Ok(octets) ==> dsig::digest_of(alg, octets)
                != dsig::digest_of(alg, canon(request)->Ok_0)
        }),
    ensures
        dsig::verification(t, signature, key, tampered) is Err,
{
    let references = dsig::all_of(t, signed_info, "Reference"@);
    let covered = dsig::verification(t, signature, key, canon)->Ok_0;
    law_accepted_signature(t, signature, key, canon, covered);
    assert(dsig::reference_result(t, signature, references[k], canon) is Ok);
    law_covered_reference(t, signature, references[k], canon, covered[k]);
    if let Ok(others) = dsig::verification(t, signature, key, tampered) {
        law_accepted_signature(t, signature, key, tampered, others);
        assert(dsig::reference_result(t, signature, references[k], tampered) is Ok);
        law_covered_reference(t, signature, references[k], tampered, others[k]);
    }
}

/// Neither a signature nor anything in it takes part in what its references
/// digest, and nothing outside of what they name does.
pub proof fn law_enveloped_signature(t: dsig::Tree, signature: int, reference: int, i: int)
    requires
        dsig::reference_request(t, signature, reference) is Ok,
    ensures
        ({
            let request = dsig::reference_request(t, signature, reference)->Ok_0.1;
            &&& document::within(t, i, signature) ==> !c14n::takes_part(t, request, Some(i))
            &&& !document::within(t, i, request.target) ==> !c14n::takes_part(t, request, Some(i))
            &&& document::within(t, i, request.target) && !document::within(t, i, signature)
                ==> c14n::takes_part(t, request, Some(i))
        }),
{
}

/// A signature that was not made with the key of the trust anchor is refused:
/// where RSA does not accept the signature value over the octets of the signed
/// info under that key, verification fails.
pub proof fn law_wrong_key_refused(
    t: dsig::Tree,
    signature: int,
    key: crypto::KeyView,
    canon: dsig::Canon,
    p: SignatureParts,
)
    requires
        dsig::one_of(t, signature, "SignedInfo"@) == Ok::<int, Seq<char>>(p.signed_info),
        dsig::one_of(t, p.signed_info, "CanonicalizationMethod"@) == Ok::<int, Seq<char>>(p.method),
        canon(dsig::signed_info_request(t, p.signed_info, p.method)) == Ok::<Seq<u8>, Seq<char>>(
            p.octets,
        ),
        dsig::one_of(t, signature, "SignatureValue"@) == Ok::<int, Seq<char>>(p.value),
        crypto::base64_decoding(text::without_white_space(document::content_of(t, p.value)))
            == Ok::<Seq<u8>, Seq<char>>(p.bytes),
        !rsa_accepts(
            key,
            dsig::algorithm_of(t, p.signed_info, "SignatureMethod"@) == Ok::<Seq<char>, Seq<char>>(
                dsig::RSA_SHA256@,
            ),
            p.octets,
            p.bytes,
        ),
    ensures
        dsig::verification(t, signature, key, canon) is Err,
{
    if let Ok(covered) = dsig::verification(t, signature, key, canon) {
        law_accepted_signature(t, signature, key, canon, covered);
    }
}

// ---------------------------------------------------------------------------
// What a message carries of its own key
// ---------------------------------------------------------------------------
/// Whether two trees are the same but for the text in the subtree of `k`.
pub open spec fn same_but_for_text_in(t: dsig::Tree, u: dsig::Tree, k: int) -> bool {
    &&& t.len() == u.len()
    &&& forall|i: int|
        0 <= i < t.len() ==> {
            &&& (#[trigger] t[i]).parent == u[i].parent
            &&& t[i].kind == u[i].kind || (document::within(t, i, k) && t[i].kind is Text
                && u[i].kind is Text)
        }
}

/// A node in a subtree does not come before its root.
pub proof fn lemma_within_order(t: dsig::Tree, i: int, a: int)
    requires
        document::within(t, i, a),
    ensures
        a <= i,
    decreases i,
{
    if i != a {
        lemma_within_order(t, t[i].parent->Some_0, a);
    }
}

/// The subtrees of two children of one element are disjoint.
pub proof fn lemma_disjoint(t: dsig::Tree, a: int, k: int, parent: int, n: int)
    requires
        document::well_formed(t),
        0 <= a < t.len(),
        0 <= k < t.len(),
        a != k,
        t[a].parent == Some(parent),
        t[k].parent == Some(parent),
        document::within(t, n, a),
    ensures
        !document::within(t, n, k),
    decreases n,
{
    document::lemma_parent(t, a);
    document::lemma_parent(t, k);
    if n == a {
        if document::within(t, a, k) {
            lemma_within_order(t, parent, k);
        }
    } else {
        let p = t[n].parent->Some_0;
        lemma_disjoint(t, a, k, parent, p);
        if n == k {
            lemma_within_order(t, parent, a);
        }
    }
}

/// Trees that are the same but for some text have the same subtrees.
proof fn lemma_same_shape(t: dsig::Tree, u: dsig::Tree, k: int, i: int, a: int)
    requires
        same_but_for_text_in(t, u, k),
    ensures
        document::within(t, i, a) == document::within(u, i, a),
    decreases i,
{
    if 0 <= i < t.len() {
        assert(t[i].parent == u[i].parent);
        if let Some(p) = t[i].parent {
            if 0 <= p < i {
                lemma_same_shape(t, u, k, p, a);
            }
        }
    }
}

/// Trees that are the same but for some text have the same children.
proof fn lemma_same_children(
    t: dsig::Tree,
    u: dsig::Tree,
    k: int,
    parents: Seq<int>,
    local: Seq<char>,
    ns: Option<Seq<char>>,
)
    requires
        same_but_for_text_in(t, u, k),
    ensures
        document::children_named(t, parents, local, ns) == document::children_named(
            u,
            parents,
            local,
            ns,
        ),
{
    let p = document::pick_children(t, parents, local, ns);
    let q = document::pick_children(u, parents, local, ns);
    assert forall|i: int| 0 <= i < t.len() implies (#[trigger] p(i) <==> q(i)) by {
        assert(t[i].parent == u[i].parent);
    }
    document::lemma_same_matching(t.len(), p, q);
}

/// Trees that are the same but for some text have the same attributes.
proof fn lemma_same_attribute(t: dsig::Tree, u: dsig::Tree, k: int, i: int, name: Seq<char>)
    requires
        same_but_for_text_in(t, u, k),
    ensures
        document::attribute_of(t, i, name) == document::attribute_of(u, i, name),
{
    if 0 <= i < t.len() {
        assert(t[i].parent == u[i].parent);
    }
}

/// Trees that are the same but for some text find the same element by an
/// attribute.
proof fn lemma_same_target(t: dsig::Tree, u: dsig::Tree, k: int, name: Seq<char>, value: Seq<char>)
    requires
        same_but_for_text_in(t, u, k),
    ensures
        document::element_with_attribute(t, name, value) == document::element_with_attribute(
            u,
            name,
            value,
        ),
{
    let p = document::pick_with_attribute(t, name, value);
    let q = document::pick_with_attribute(u, name, value);
    assert forall|i: int| 0 <= i < t.len() implies (#[trigger] p(i) <==> q(i)) by {
        assert(t[i].parent == u[i].parent);
    }
    document::lemma_same_matching(t.len(), p, q);
}

/// Trees that are the same but for text in one child of an element have the same
/// text in what is below another child of it.
proof fn lemma_same_text(
    t: dsig::Tree,
    u: dsig::Tree,
    k: int,
    a: int,
    parent: int,
    v: int,
    n: nat,
)
    requires
        document::well_formed(t),
        same_but_for_text_in(t, u, k),
        0 <= a < t.len(),
        0 <= k < t.len(),
        a != k,
        t[a].parent == Some(parent),
        t[k].parent == Some(parent),
        document::within(t, v, a),
        n <= t.len(),
    ensures
        document::content_before(t, v, n) == document::content_before(u, v, n),
    decreases n,
{
    if n > 0 {
        lemma_same_text(t, u, k, a, parent, v, (n - 1) as nat);
        lemma_same_shape(t, u, k, n - 1, v);
        assert(t[n - 1].parent == u[n - 1].parent);
        if document::within(t, n - 1, v) {
            assertion::law_within_transitive(t, n - 1, v, a);
            lemma_disjoint(t, a, k, parent, n - 1);
        }
    }
}

/// Trees that are the same but for some text have the same canonicalization among
/// the transforms.
proof fn lemma_same_transform(t: dsig::Tree, u: dsig::Tree, k: int, s: Seq<int>)
    requires
        same_but_for_text_in(t, u, k),
    ensures
        dsig::canonical_transform(t, s) == dsig::canonical_transform(u, s),
    decreases s.len(),
{
    if s.len() > 0 {
        lemma_same_transform(t, u, k, s.drop_last());
        lemma_same_attribute(t, u, k, s.last(), "Algorithm"@);
    }
}

/// Trees that are the same but for some text have the same prefix lists.
proof fn lemma_same_prefixes(t: dsig::Tree, u: dsig::Tree, k: int, method: int)
    requires
        same_but_for_text_in(t, u, k),
    ensures
        dsig::prefixes_of(t, method) == dsig::prefixes_of(u, method),
{
    lemma_same_children(t, u, k, seq![method], "InclusiveNamespaces"@, None);
    if let Some(n) = document::child_named(t, method, "InclusiveNamespaces"@, None) {
        lemma_same_attribute(t, u, k, n, "PrefixList"@);
    }
}

/// Trees that are the same but for some text ask for the same octets.
proof fn lemma_same_request(t: dsig::Tree, u: dsig::Tree, k: int, signature: int, reference: int)
    requires
        same_but_for_text_in(t, u, k),
    ensures
        dsig::reference_request(t, signature, reference) == dsig::reference_request(
            u,
            signature,
            reference,
        ),
{
    lemma_same_attribute(t, u, k, reference, "URI"@);
    let groups = dsig::all_of(t, reference, "Transforms"@);
    lemma_same_children(t, u, k, seq![reference], "Transforms"@, Some(dsig::DS@));
    lemma_same_children(t, u, k, groups, "Transform"@, Some(dsig::DS@));
    lemma_same_transform(t, u, k, dsig::transforms_of(t, reference));
    if let Ok(id) = dsig::id_of_uri(dsig::attribute_or_empty(t, reference, "URI"@)) {
        lemma_same_target(t, u, k, "ID"@, id);
    }
    if let Ok(Some(method)) = dsig::canonical_transform(t, dsig::transforms_of(t, reference)) {
        lemma_same_prefixes(t, u, k, method);
    }
}

/// The child that is found hangs under its parent, and so is in its subtree.
proof fn lemma_found(t: dsig::Tree, a: int, local: Seq<char>)
    requires
        document::well_formed(t),
        0 <= a < t.len(),
    ensures
        dsig::one_of(t, a, local) matches Ok(i) ==> {
            &&& 0 <= i < t.len()
            &&& t[i].parent == Some(a)
            &&& document::is_named(t, i, local, Some(dsig::DS@))
            &&& document::within(t, i, a)
        },
{
    assertion::lemma_child(t, a, local, Some(dsig::DS@));
    if let Ok(i) = dsig::one_of(t, a, local) {
        document::lemma_parent(t, i);
        assert(document::within(t, a, a));
    }
}

/// Trees that are the same but for text in one child of the signature have the
/// same result for a reference in another child of it.
proof fn lemma_same_reference(
    t: dsig::Tree,
    u: dsig::Tree,
    k: int,
    signature: int,
    signed_info: int,
    reference: int,
    canon: dsig::Canon,
)
    requires
        document::well_formed(t),
        same_but_for_text_in(t, u, k),
        0 <= signed_info < t.len(),
        0 <= k < t.len(),
        signed_info != k,
        t[signed_info].parent == Some(signature),
        t[k].parent == Some(signature),
        document::within(t, reference, signed_info),
    ensures
        dsig::reference_result(t, signature, reference, canon) == dsig::reference_result(
            u,
            signature,
            reference,
            canon,
        ),
{
    lemma_same_request(t, u, k, signature, reference);
    lemma_same_children(t, u, k, seq![reference], "DigestMethod"@, Some(dsig::DS@));
    if let Ok(m) = dsig::one_of(t, reference, "DigestMethod"@) {
        lemma_same_attribute(t, u, k, m, "Algorithm"@);
    }
    lemma_same_children(t, u, k, seq![reference], "DigestValue"@, Some(dsig::DS@));
    lemma_found(t, reference, "DigestValue"@);
    if let Ok(v) = dsig::one_of(t, reference, "DigestValue"@) {
        assertion::law_within_transitive(t, v, reference, signed_info);
        lemma_same_text(t, u, k, signed_info, signature, v, t.len());
    }
}

/// Trees that are the same but for text in one child of the signature have the
/// same results for references in another child of it.
proof fn lemma_same_references(
    t: dsig::Tree,
    u: dsig::Tree,
    k: int,
    signature: int,
    signed_info: int,
    s: Seq<int>,
    canon: dsig::Canon,
)
    requires
        document::well_formed(t),
        same_but_for_text_in(t, u, k),
        0 <= signed_info < t.len(),
        0 <= k < t.len(),
        signed_info != k,
        t[signed_info].parent == Some(signature),
        t[k].parent == Some(signature),
        forall|j: int| 0 <= j < s.len() ==> document::within(t, #[trigger] s[j], signed_info),
    ensures
        dsig::references_result(t, signature, s, canon) == dsig::references_result(
            u,
            signature,
            s,
            canon,
        ),
    decreases s.len(),
{
    if s.len() > 0 {
        assert(document::within(t, s[0], signed_info));
        lemma_same_reference(t, u, k, signature, signed_info, s.first(), canon);
        assert forall|j: int| 0 <= j < s.drop_first().len() implies document::within(
            t,
            #[trigger] s.drop_first()[j],
            signed_info,
        ) by {
            assert(document::within(t, s[j + 1], signed_info));
        }
        lemma_same_references(t, u, k, signature, signed_info, s.drop_first(), canon);
    }
}

/// Trees that are the same but for some text find the same child, with the same
/// algorithm.
proof fn lemma_same_algorithm(t: dsig::Tree, u: dsig::Tree, k: int, a: int, local: Seq<char>)
    requires
        same_but_for_text_in(t, u, k),
    ensures
        dsig::one_of(t, a, local) == dsig::one_of(u, a, local),
        dsig::algorithm_of(t, a, local) == dsig::algorithm_of(u, a, local),
        dsig::one_of(t, a, local) matches Ok(i) ==> dsig::attribute_or_empty(t, i, "Algorithm"@)
            == dsig::attribute_or_empty(u, i, "Algorithm"@),
{
    lemma_same_children(t, u, k, seq![a], local, Some(dsig::DS@));
    if let Ok(i) = dsig::one_of(t, a, local) {
        lemma_same_attribute(t, u, k, i, "Algorithm"@);
    }
}

/// Trees that are the same but for text in the key info of a signature have the
/// same signature value.
proof fn lemma_same_value(t: dsig::Tree, u: dsig::Tree, k: int, signature: int)
    requires
        document::well_formed(t),
        0 <= k < t.len(),
        t[k].parent == Some(signature),
        document::is_named(t, k, "KeyInfo"@, Some(dsig::DS@)),
        same_but_for_text_in(t, u, k),
    ensures
        dsig::one_of(t, signature, "SignatureValue"@) == dsig::one_of(
            u,
            signature,
            "SignatureValue"@,
        ),
        dsig::one_of(t, signature, "SignatureValue"@) matches Ok(v) ==> document::content_of(t, v)
            == document::content_of(u, v),
{
    reveal_strlit("KeyInfo");
    reveal_strlit("SignatureValue");
    assert("KeyInfo"@.len() != "SignatureValue"@.len());
    document::lemma_parent(t, k);
    lemma_same_algorithm(t, u, k, signature, "SignatureValue"@);
    lemma_found(t, signature, "SignatureValue"@);
    if let Ok(v) = dsig::one_of(t, signature, "SignatureValue"@) {
        assert(document::within(t, v, v));
        lemma_same_text(t, u, k, v, signature, v, t.len());
    }
}

/// Trees that are the same but for text in the key info of a signature have the
/// same references in its signed info, with the same results.
proof fn lemma_same_signed_references(
    t: dsig::Tree,
    u: dsig::Tree,
    k: int,
    signature: int,
    signed_info: int,
    canon: dsig::Canon,
)
    requires
        document::well_formed(t),
        0 <= k < t.len(),
        t[k].parent == Some(signature),
        document::is_named(t, k, "KeyInfo"@, Some(dsig::DS@)),
        same_but_for_text_in(t, u, k),
        dsig::one_of(t, signature, "SignedInfo"@) == Ok::<int, Seq<char>>(signed_info),
    ensures
        ({
            let s = dsig::all_of(t, signed_info, "Reference"@);
            &&& dsig::all_of(u, signed_info, "Reference"@) == s
            &&& dsig::references_result(u, signature, s, canon) == dsig::references_result(
                t,
                signature,
                s,
                canon,
            )
        }),
{
    reveal_strlit("KeyInfo");
    reveal_strlit("SignedInfo");
    assert("KeyInfo"@.len() != "SignedInfo"@.len());
    document::lemma_parent(t, k);
    lemma_found(t, signature, "SignedInfo"@);
    lemma_same_children(t, u, k, seq![signed_info], "Reference"@, Some(dsig::DS@));
    assert(document::within(t, signed_info, signed_info));
    assertion::lemma_children_within(
        t,
        seq![signed_info],
        "Reference"@,
        Some(dsig::DS@),
        signed_info,
    );
    let s = dsig::all_of(t, signed_info, "Reference"@);
    lemma_same_references(t, u, k, signature, signed_info, s, canon);
}

/// The certificate or key that a message carries takes no part in verification:
/// whatever text stands in the `KeyInfo` of a signature, the result under the key
/// of the trust anchor is the same.
pub proof fn law_embedded_key_takes_no_part(
    t: dsig::Tree,
    u: dsig::Tree,
    signature: int,
    key_info: int,
    key: crypto::KeyView,
    canon: dsig::Canon,
)
    requires
        document::well_formed(t),
        0 <= key_info < t.len(),
        t[key_info].parent == Some(signature),
        document::is_named(t, key_info, "KeyInfo"@, Some(dsig::DS@)),
        same_but_for_text_in(t, u, key_info),
    ensures
        dsig::verification(t, signature, key, canon) == dsig::verification(
            u,
            signature,
            key,
            canon,
        ),
{
    lemma_same_algorithm(t, u, key_info, signature, "SignedInfo"@);
    lemma_same_value(t, u, key_info, signature);
    if let Ok(signed_info) = dsig::one_of(t, signature, "SignedInfo"@) {
        lemma_same_algorithm(t, u, key_info, signed_info, "CanonicalizationMethod"@);
        lemma_same_algorithm(t, u, key_info, signed_info, "SignatureMethod"@);
        lemma_same_signed_references(t, u, key_info, signature, signed_info, canon);
        if let Ok(method) = dsig::one_of(t, signed_info, "CanonicalizationMethod"@) {
            lemma_same_prefixes(t, u, key_info, method);
        }
    }
}

} // verus!
