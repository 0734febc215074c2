//! What holds of assertions.

use crate::c14n;
use crate::crypto;
use crate::document;
use crate::dsig;
use crate::laws::signature;
use crate::saml;
use crate::text;
use vstd::prelude::*;

verus! {

/// Being in a subtree is transitive.
pub proof fn law_within_transitive(t: dsig::Tree, i: int, b: int, a: int)
    requires
        document::within(t, i, b),
        document::within(t, b, a),
    ensures
        document::within(t, i, a),
    decreases i,
{
    if i != b {
        law_within_transitive(t, t[i].parent->Some_0, b, a);
    }
}

/// The children that are listed are named so and hang under one of the parents,
/// which are in the subtree of `a`; so they are too.
pub proof fn lemma_children_within(
    t: dsig::Tree,
    parents: Seq<int>,
    local: Seq<char>,
    ns: Option<Seq<char>>,
    a: int,
)
    requires
        document::well_formed(t),
        forall|k: int| 0 <= k < parents.len() ==> document::within(t, #[trigger] parents[k], a),
    ensures
        ({
            let s = document::children_named(t, parents, local, ns);
            forall|k: int|
                0 <= k < s.len() ==> document::within(t, #[trigger] s[k], a) && document::is_named(
                    t,
                    s[k],
                    local,
                    ns,
                )
        }),
{
    let p = document::pick_children(t, parents, local, ns);
    let s = document::children_named(t, parents, local, ns);
    document::lemma_matching(t.len(), p);
    assert forall|k: int| 0 <= k < s.len() implies document::within(t, #[trigger] s[k], a)
        && document::is_named(t, s[k], local, ns) by {
        assert(p(s[k]));
        let parent = t[s[k]].parent->Some_0;
        let j = choose|j: int| 0 <= j < parents.len() && parents[j] == parent;
        assert(document::within(t, parents[j], a));
        document::lemma_parent(t, s[k]);
    }
}

/// The descendants that are listed are in the subtree.
proof fn lemma_descendants_within(t: dsig::Tree, a: int, local: Seq<char>, ns: Option<Seq<char>>)
    ensures
        ({
            let s = document::descendants_named(t, a, local, ns);
            forall|k: int| 0 <= k < s.len() ==> document::within(t, #[trigger] s[k], a)
        }),
{
    let p = document::pick_descendants(t, a, local, ns);
    document::lemma_matching(t.len(), p);
    let s = document::descendants_named(t, a, local, ns);
    assert forall|k: int| 0 <= k < s.len() implies document::within(t, #[trigger] s[k], a) by {
        assert(p(s[k]));
    }
}

/// The first child of a name, where there is one, is named so and hangs under
/// `a`.
pub proof fn lemma_child(t: dsig::Tree, a: int, local: Seq<char>, ns: Option<Seq<char>>)
    ensures
        document::child_named(t, a, local, ns) matches Some(i) ==> {
            &&& 0 <= i < t.len()
            &&& t[i].parent == Some(a)
            &&& document::is_named(t, i, local, ns)
        },
{
    let p = document::pick_children(t, seq![a], local, ns);
    let s = document::children_named(t, seq![a], local, ns);
    document::lemma_matching(t.len(), p);
    if s.len() > 0 {
        assert(p(s[0]));
    }
}

/// Whether reference `k` of a signature names the element `target` by its `ID`
/// and digests that very element.
pub open spec fn digests(
    t: dsig::Tree,
    signature: int,
    signed_info: int,
    k: int,
    id: Seq<char>,
    target: int,
) -> bool {
    let references = dsig::all_of(t, signed_info, "Reference"@);
    &&& 0 <= k < references.len()
    &&& dsig::reference_request(t, signature, references[k]) matches Ok((name, request))
    &&& name == id
    &&& request.target == target
}

/// The defenses against signature wrapping. A document is accepted only if it
/// has exactly one assertion; a signature is a direct child of that assertion,
/// is verified, and covers the `ID` of the assertion; and one of its references
/// digests that very assertion. What is read is read of that assertion.
pub proof fn law_sole_signed_assertion(
    t: dsig::Tree,
    key: crypto::KeyView,
    terms: saml::TermsView,
    canon: dsig::Canon,
    accepted: saml::AssertionView,
)
    requires
        saml::validation(t, key, terms, canon) == Ok::<saml::AssertionView, Seq<char>>(accepted),
    ensures
        exists|assertion: int, signature: int|
            {
                &&& saml::assertions_of(t) == seq![assertion]
                &&& document::is_named(t, assertion, "Assertion"@, Some(saml::SAML@))
                &&& 0 <= signature < t.len() && t[signature].parent == Some(assertion)
                &&& document::is_named(t, signature, "Signature"@, Some(dsig::DS@))
                &&& document::attribute_of(t, assertion, "ID"@) matches Some(id)
                &&& #[trigger] dsig::verification(t, signature, key, canon) matches Ok(covered)
                &&& covered.contains(id)
                &&& dsig::one_of(t, signature, "SignedInfo"@) matches Ok(signed_info)
                &&& exists|k: int| digests(t, signature, signed_info, k, id, assertion)
                &&& #[trigger] saml::assertion_result(t, assertion, terms) == Ok::<
                    saml::AssertionView,
                    Seq<char>,
                >(accepted)
            },
{
    let s = saml::assertions_of(t);
    let p = document::pick_elements(t, "Assertion"@, Some(saml::SAML@));
    document::lemma_matching(t.len(), p);
    assert(p(s[0]));
    assert(s =~= seq![s[0]]);
    lemma_child(t, s[0], "Signature"@, Some(dsig::DS@));
    let id = document::attribute_of(t, s[0], "ID"@)->Some_0;
    let signature = document::child_named(t, s[0], "Signature"@, Some(dsig::DS@))->Some_0;
    let covered = dsig::verification(t, signature, key, canon)->Ok_0;
    signature::law_accepted_signature(t, signature, key, canon, covered);
    let signed_info = dsig::one_of(t, signature, "SignedInfo"@)->Ok_0;
    let references = dsig::all_of(t, signed_info, "Reference"@);
    let k = choose|k: int| 0 <= k < covered.len() && covered[k] == id;
    assert(dsig::reference_result(t, signature, references[k], canon) == Ok::<
        Seq<char>,
        Seq<char>,
    >(covered[k]));
    signature::law_covered_reference(t, signature, references[k], canon, id);
    assert(digests(t, signature, signed_info, k, id, s[0]));
    assert(saml::assertion_result(t, s[0], terms) is Ok);
}

/// Whether an element, with everything in it, takes part in the canonical form
/// that `request` asks for.
pub open spec fn takes_part_whole(t: dsig::Tree, request: c14n::RequestView, i: int) -> bool {
    forall|j: int| #[trigger] document::within(t, j, i) ==> c14n::takes_part(t, request, Some(j))
}

/// Whether everything that is read of an assertion takes part in the canonical
/// form that `request` asks for: the name identifier, the attributes and their
/// values, the issuer, the conditions and the audiences in them.
pub open spec fn read_takes_part(t: dsig::Tree, assertion: int, request: c14n::RequestView) -> bool {
    let elements = saml::attribute_elements_of(t, assertion);
    &&& document::first_of(saml::name_ids_of(t, assertion)) matches Some(i)
    &&& takes_part_whole(t, request, i)
    &&& forall|k: int|
        0 <= k < elements.len() ==> takes_part_whole(t, request, #[trigger] elements[k])
    &&& forall|k: int, v: int|
        0 <= k < elements.len() && #[trigger] document::children_named(
            t,
            seq![elements[k]],
            "AttributeValue"@,
            None,
        ).contains(v) ==> takes_part_whole(t, request, v)
    &&& document::child_named(t, assertion, "Issuer"@, Some(saml::SAML@)) matches Some(n)
        ==> takes_part_whole(t, request, n)
    &&& document::child_named(t, assertion, "Conditions"@, Some(saml::SAML@)) matches Some(c) ==> {
        &&& takes_part_whole(t, request, c)
        &&& forall|k: int|
            0 <= k < saml::audience_elements_of(t, c).len() ==> takes_part_whole(
                t,
                request,
                #[trigger] saml::audience_elements_of(t, c)[k],
            )
    }
}

/// Of two subtrees that share a node, one is in the other.
proof fn lemma_nested(t: dsig::Tree, j: int, a: int, b: int)
    requires
        document::within(t, j, a),
        document::within(t, j, b),
    ensures
        document::within(t, a, b) || document::within(t, b, a),
    decreases j,
{
    if j != a && j != b {
        lemma_nested(t, t[j].parent->Some_0, a, b);
    }
}

/// An element of the target that is neither the target nor in the excluded child
/// of it takes part, with everything in it.
proof fn lemma_whole(t: dsig::Tree, request: c14n::RequestView, signature: int, e: int)
    requires
        document::well_formed(t),
        0 <= signature < t.len(),
        t[signature].parent == Some(request.target),
        request.exclude == Some(signature),
        document::within(t, e, request.target),
        e != request.target,
        !document::within(t, e, signature),
    ensures
        takes_part_whole(t, request, e),
{
    let a = request.target;
    assert forall|j: int| #[trigger] document::within(t, j, e) implies c14n::takes_part(
        t,
        request,
        Some(j),
    ) by {
        law_within_transitive(t, j, e, a);
        if document::within(t, j, signature) {
            lemma_nested(t, j, e, signature);
            assert(signature != e);
            signature::lemma_within_order(t, a, e);
            signature::lemma_within_order(t, e, a);
        }
    }
}

/// What is in an element that takes part as a whole takes part as a whole.
proof fn lemma_whole_below(t: dsig::Tree, request: c14n::RequestView, c: int, e: int)
    requires
        takes_part_whole(t, request, c),
        document::within(t, e, c),
    ensures
        takes_part_whole(t, request, e),
{
    assert forall|j: int| #[trigger] document::within(t, j, e) implies c14n::takes_part(
        t,
        request,
        Some(j),
    ) by {
        law_within_transitive(t, j, e, c);
    }
}

/// A child of the target other than the excluded one takes part as a whole.
proof fn lemma_whole_child(
    t: dsig::Tree,
    request: c14n::RequestView,
    signature: int,
    local: Seq<char>,
)
    requires
        document::well_formed(t),
        0 <= signature < t.len(),
        0 <= request.target < t.len(),
        t[signature].parent == Some(request.target),
        document::is_named(t, signature, "Signature"@, Some(dsig::DS@)),
        request.exclude == Some(signature),
        local != "Signature"@,
    ensures
        document::child_named(t, request.target, local, Some(saml::SAML@)) matches Some(e)
            ==> takes_part_whole(t, request, e),
{
    let a = request.target;
    lemma_child(t, a, local, Some(saml::SAML@));
    if let Some(e) = document::child_named(t, a, local, Some(saml::SAML@)) {
        document::lemma_parent(t, e);
        assert(document::within(t, a, a));
        assert(document::within(t, e, a));
        assert(document::within(t, e, e));
        signature::lemma_disjoint(t, e, signature, a, e);
        lemma_whole(t, request, signature, e);
    }
}

/// The children of the descendants of a name that the excluded child does not
/// hold take part as a whole.
proof fn lemma_whole_grandchildren(
    t: dsig::Tree,
    request: c14n::RequestView,
    signature: int,
    outer: Seq<char>,
    inner: Seq<char>,
)
    requires
        document::well_formed(t),
        0 <= signature < t.len(),
        t[signature].parent == Some(request.target),
        document::is_named(t, signature, "Signature"@, Some(dsig::DS@)),
        request.exclude == Some(signature),
        outer != "Signature"@,
        document::descendants_named(t, signature, outer, None).len() == 0,
    ensures
        ({
            let parents = document::descendants_named(t, request.target, outer, None);
            let s = document::children_named(t, parents, inner, None);
            forall|k: int| 0 <= k < s.len() ==> takes_part_whole(t, request, #[trigger] s[k])
        }),
{
    let a = request.target;
    let below = document::pick_descendants(t, a, outer, None);
    let hidden = document::pick_descendants(t, signature, outer, None);
    let parents = document::descendants_named(t, a, outer, None);
    let children = document::pick_children(t, parents, inner, None);
    let s = document::children_named(t, parents, inner, None);
    document::lemma_matching(t.len(), below);
    document::lemma_matching(t.len(), hidden);
    document::lemma_matching(t.len(), children);
    assert forall|k: int| 0 <= k < s.len() implies takes_part_whole(t, request, #[trigger] s[k]) by {
        let e = s[k];
        assert(children(e));
        let p = t[e].parent->Some_0;
        let n = choose|n: int| 0 <= n < parents.len() && parents[n] == p;
        assert(below(parents[n]));
        document::lemma_parent(t, e);
        assert(document::within(t, e, a));
        signature::lemma_within_order(t, p, a);
        if document::within(t, p, signature) {
            assert(hidden(p));
            assert(document::descendants_named(t, signature, outer, None).contains(p));
        }
        lemma_whole(t, request, signature, e);
    }
}

/// Everything that is read of an assertion takes part in the canonical form of
/// the assertion without its signature, where the signature holds nothing that is
/// read.
proof fn lemma_read_takes_part(
    t: dsig::Tree,
    signature: int,
    request: c14n::RequestView,
    terms: saml::TermsView,
)
    requires
        document::well_formed(t),
        0 <= signature < t.len(),
        0 <= request.target < t.len(),
        t[signature].parent == Some(request.target),
        document::is_named(t, signature, "Signature"@, Some(dsig::DS@)),
        request.exclude == Some(signature),
        saml::holds_nothing_read(t, signature),
        saml::assertion_result(t, request.target, terms) is Ok,
    ensures
        read_takes_part(t, request.target, request),
{
    let a = request.target;
    reveal_strlit("Signature");
    reveal_strlit("Subject");
    reveal_strlit("AttributeStatement");
    reveal_strlit("Issuer");
    reveal_strlit("Conditions");
    assert("Signature"@.len() == 9 && "Subject"@.len() == 7 && "AttributeStatement"@.len() == 18);
    assert("Issuer"@.len() == 6 && "Conditions"@.len() == 10);
    lemma_whole_grandchildren(t, request, signature, "Subject"@, "NameID"@);
    lemma_whole_child(t, request, signature, "Issuer"@);
    lemma_whole_child(t, request, signature, "Conditions"@);
    let elements = saml::attribute_elements_of(t, a);
    lemma_whole_grandchildren(t, request, signature, "AttributeStatement"@, "Attribute"@);
    assert forall|k: int, v: int|
        0 <= k < elements.len() && #[trigger] document::children_named(
            t,
            seq![elements[k]],
            "AttributeValue"@,
            None,
        ).contains(v) implies takes_part_whole(t, request, v) by {
        let e = elements[k];
        let values = document::children_named(t, seq![e], "AttributeValue"@, None);
        let n = choose|n: int| 0 <= n < values.len() && values[n] == v;
        document::lemma_matching(
            t.len(),
            document::pick_children(
                t,
                document::descendants_named(t, a, "AttributeStatement"@, None),
                "Attribute"@,
                None,
            ),
        );
        assert(document::within(t, e, e));
        lemma_children_within(t, seq![e], "AttributeValue"@, None, e);
        assert(document::within(t, values[n], e));
        assert(takes_part_whole(t, request, elements[k]));
        lemma_whole_below(t, request, e, v);
    }
    if let Some(c) = document::child_named(t, a, "Conditions"@, Some(saml::SAML@)) {
        let restrictions = document::descendants_named(t, c, "AudienceRestriction"@, None);
        let audiences = saml::audience_elements_of(t, c);
        lemma_descendants_within(t, c, "AudienceRestriction"@, None);
        lemma_children_within(t, restrictions, "Audience"@, None, c);
        assert forall|k: int| 0 <= k < audiences.len() implies takes_part_whole(
            t,
            request,
            #[trigger] audiences[k],
        ) by {
            assert(document::within(t, audiences[k], c));
            lemma_whole_below(t, request, c, audiences[k]);
        }
    }
}

/// Whatever is read was protected by the signature that was checked. Where a
/// document is accepted, one of the references of the verified signature names
/// the assertion, its digest has been found right, and the octets that were
/// digested are those of a canonical form in which everything that is read takes
/// part.
pub proof fn law_read_is_signed(
    t: dsig::Tree,
    key: crypto::KeyView,
    terms: saml::TermsView,
    canon: dsig::Canon,
    accepted: saml::AssertionView,
)
    requires
        document::well_formed(t),
        saml::validation(t, key, terms, canon) == Ok::<saml::AssertionView, Seq<char>>(accepted),
    ensures
        ({
            let assertion = saml::assertions_of(t)[0];
            let id = document::attribute_of(t, assertion, "ID"@)->Some_0;
            let signature = document::child_named(
                t,
                assertion,
                "Signature"@,
                Some(dsig::DS@),
            )->Some_0;
            let signed_info = dsig::one_of(t, signature, "SignedInfo"@)->Ok_0;
            let references = dsig::all_of(t, signed_info, "Reference"@);
            &&& dsig::verification(t, signature, key, canon) is Ok
            &&& exists|k: int|
                {
                    let request = dsig::reference_request(t, signature, references[k])->Ok_0.1;
                    &&& #[trigger] digests(t, signature, signed_info, k, id, assertion)
                    &&& dsig::reference_result(t, signature, references[k], canon) is Ok
                    &&& read_takes_part(t, assertion, request)
                }
        }),
{
    let assertion = saml::assertions_of(t)[0];
    let id = document::attribute_of(t, assertion, "ID"@)->Some_0;
    let signature = document::child_named(t, assertion, "Signature"@, Some(dsig::DS@))->Some_0;
    let signed_info = dsig::one_of(t, signature, "SignedInfo"@)->Ok_0;
    let references = dsig::all_of(t, signed_info, "Reference"@);
    let covered = dsig::verification(t, signature, key, canon)->Ok_0;
    document::lemma_matching(
        t.len(),
        document::pick_elements(t, "Assertion"@, Some(saml::SAML@)),
    );
    lemma_child(t, assertion, "Signature"@, Some(dsig::DS@));
    signature::law_accepted_signature(t, signature, key, canon, covered);
    let k = choose|k: int| 0 <= k < covered.len() && covered[k] == id;
    assert(dsig::reference_result(t, signature, references[k], canon) == Ok::<
        Seq<char>,
        Seq<char>,
    >(covered[k]));
    signature::law_covered_reference(t, signature, references[k], canon, id);
    assert(digests(t, signature, signed_info, k, id, assertion));
    let request = dsig::reference_request(t, signature, references[k])->Ok_0.1;
    lemma_read_takes_part(t, signature, request, terms);
}

/// A document whose signature holds a subject or an attribute statement is
/// refused: the signature is left out of what it digests, so these are not
/// protected.
pub proof fn law_unsigned_contents_refused(
    t: dsig::Tree,
    key: crypto::KeyView,
    terms: saml::TermsView,
    canon: dsig::Canon,
    signature: int,
    i: int,
)
    requires
        saml::assertions_of(t).len() == 1,
        document::child_named(t, saml::assertions_of(t)[0], "Signature"@, Some(dsig::DS@)) == Some(
            signature,
        ),
        document::within(t, i, signature),
        i != signature,
        document::is_named(t, i, "Subject"@, None) || document::is_named(
            t,
            i,
            "AttributeStatement"@,
            None,
        ),
    ensures
        saml::validation(t, key, terms, canon) is Err,
{
    let subjects = document::pick_descendants(t, signature, "Subject"@, None);
    let statements = document::pick_descendants(t, signature, "AttributeStatement"@, None);
    document::lemma_matching(t.len(), subjects);
    document::lemma_matching(t.len(), statements);
    if document::is_named(t, i, "Subject"@, None) {
        assert(subjects(i));
        assert(document::descendants_named(t, signature, "Subject"@, None).contains(i));
    } else {
        assert(statements(i));
        assert(document::descendants_named(t, signature, "AttributeStatement"@, None).contains(i));
    }
}

/// A signature over another element is not taken for one over the assertion:
/// where the `ID` of the assertion names another element, be it that this element
/// comes first or that the assertion has its `ID` in a namespace, the document is
/// refused.
pub proof fn law_shadowed_assertion_refused(
    t: dsig::Tree,
    key: crypto::KeyView,
    terms: saml::TermsView,
    canon: dsig::Canon,
    id: Seq<char>,
)
    requires
        saml::assertions_of(t).len() == 1,
        document::attribute_of(t, saml::assertions_of(t)[0], "ID"@) == Some(id),
        document::element_with_attribute(t, "ID"@, id) != Some(saml::assertions_of(t)[0]),
    ensures
        saml::validation(t, key, terms, canon) is Err,
{
}

/// A document with two assertions is refused, whatever it is signed with.
pub proof fn law_second_assertion_refused(
    t: dsig::Tree,
    i: int,
    j: int,
    key: crypto::KeyView,
    terms: saml::TermsView,
    canon: dsig::Canon,
)
    requires
        0 <= i < j < t.len(),
        document::is_named(t, i, "Assertion"@, Some(saml::SAML@)),
        document::is_named(t, j, "Assertion"@, Some(saml::SAML@)),
    ensures
        saml::validation(t, key, terms, canon) is Err,
{
    let s = saml::assertions_of(t);
    let p = document::pick_elements(t, "Assertion"@, Some(saml::SAML@));
    document::lemma_matching(t.len(), p);
    assert(p(i) && p(j));
    assert(s.contains(i) && s.contains(j));
}

/// Whether `value` is the trimmed text of an element named `local` in the
/// subtree of `a`.
pub open spec fn is_text_within(t: dsig::Tree, a: int, local: Seq<char>, value: Seq<char>) -> bool {
    exists|i: int| #[trigger]
        document::within(t, i, a) && document::is_named(t, i, local, None) && value
            == text::trimmed(document::content_of(t, i))
}

/// The values of an attribute element are texts in the subtree of the assertion.
proof fn lemma_values_within(t: dsig::Tree, element: int, a: int)
    requires
        document::well_formed(t),
        document::within(t, element, a),
    ensures
        forall|k: int|
            0 <= k < saml::values_of(t, element).len() ==> is_text_within(
                t,
                a,
                "AttributeValue"@,
                #[trigger] saml::values_of(t, element)[k],
            ),
{
    let s = document::children_named(t, seq![element], "AttributeValue"@, None);
    lemma_children_within(t, seq![element], "AttributeValue"@, None, a);
    assert forall|k: int| 0 <= k < saml::values_of(t, element).len() implies is_text_within(
        t,
        a,
        "AttributeValue"@,
        #[trigger] saml::values_of(t, element)[k],
    ) by {
        assert(document::within(t, s[k], a));
    }
}

/// Every value of the attributes that elements in a subtree declare is a text
/// in that subtree.
proof fn lemma_attributes_within(t: dsig::Tree, s: Seq<int>, a: int)
    requires
        document::well_formed(t),
        forall|k: int| 0 <= k < s.len() ==> document::within(t, #[trigger] s[k], a),
    ensures
        forall|name: Seq<char>, k: int|
            saml::attributes_from(t, s).contains_key(name) && 0 <= k < saml::attributes_from(
                t,
                s,
            )[name].len() ==> is_text_within(
                t,
                a,
                "AttributeValue"@,
                #[trigger] saml::attributes_from(t, s)[name][k],
            ),
    decreases s.len(),
{
    if s.len() > 0 {
        let earlier = saml::attributes_from(t, s.drop_last());
        let m = saml::attributes_from(t, s);
        assert forall|k: int| 0 <= k < s.drop_last().len() implies document::within(
            t,
            #[trigger] s.drop_last()[k],
            a,
        ) by {
            assert(document::within(t, s[k], a));
        }
        lemma_attributes_within(t, s.drop_last(), a);
        assert(document::within(t, s[s.len() - 1], a));
        lemma_values_within(t, s.last(), a);
        assert forall|name: Seq<char>, k: int|
            m.contains_key(name) && 0 <= k < m[name].len() implies is_text_within(
            t,
            a,
            "AttributeValue"@,
            #[trigger] m[name][k],
        ) by {
            if document::attribute_of(t, s.last(), "Name"@) == Some(name) {
                let before = saml::values_under(earlier, name);
                let values = saml::values_of(t, s.last());
                assert(m[name] == before + values);
                if k < before.len() {
                    assert(m[name][k] == earlier[name][k]);
                } else {
                    assert(m[name][k] == values[k - before.len()]);
                }
            } else {
                assert(earlier.contains_key(name) && m[name] == earlier[name]);
                assert(m[name][k] == earlier[name][k]);
            }
        }
    }
}

/// What is read of an assertion are texts in its subtree.
proof fn lemma_read_within(
    t: dsig::Tree,
    assertion: int,
    terms: saml::TermsView,
    accepted: saml::AssertionView,
)
    requires
        document::well_formed(t),
        0 <= assertion < t.len(),
        saml::assertion_result(t, assertion, terms) == Ok::<saml::AssertionView, Seq<char>>(
            accepted,
        ),
    ensures
        is_text_within(t, assertion, "NameID"@, accepted.subject),
        accepted.issuer matches Some(name) ==> is_text_within(t, assertion, "Issuer"@, name),
        forall|name: Seq<char>, k: int|
            accepted.attributes.contains_key(name) && 0 <= k < accepted.attributes[name].len()
                ==> is_text_within(
                t,
                assertion,
                "AttributeValue"@,
                #[trigger] accepted.attributes[name][k],
            ),
{
    assert(is_text_within(t, assertion, "NameID"@, accepted.subject)) by {
        let subjects = document::descendants_named(t, assertion, "Subject"@, None);
        lemma_descendants_within(t, assertion, "Subject"@, None);
        lemma_children_within(t, subjects, "NameID"@, None, assertion);
        let name_ids = saml::name_ids_of(t, assertion);
        assert(document::within(t, name_ids[0], assertion));
    }
    if let Some(i) = document::child_named(t, assertion, "Issuer"@, Some(saml::SAML@)) {
        lemma_child(t, assertion, "Issuer"@, Some(saml::SAML@));
        document::lemma_parent(t, i);
        assert(document::within(t, assertion, assertion));
        assert(document::within(t, i, assertion));
        assert(document::is_named(t, i, "Issuer"@, None));
    }
    let elements = saml::attribute_elements_of(t, assertion);
    assert(forall|k: int|
        0 <= k < elements.len() ==> document::within(t, #[trigger] elements[k], assertion)) by {
        let statements = document::descendants_named(t, assertion, "AttributeStatement"@, None);
        lemma_descendants_within(t, assertion, "AttributeStatement"@, None);
        lemma_children_within(t, statements, "Attribute"@, None, assertion);
    }
    lemma_attributes_within(t, elements, assertion);
}

/// What is read of an accepted document is read from its one assertion: the
/// subject, the issuer and every attribute value is the text of an element in
/// the subtree of that assertion.
pub proof fn law_identity_from_assertion(
    t: dsig::Tree,
    key: crypto::KeyView,
    terms: saml::TermsView,
    canon: dsig::Canon,
    accepted: saml::AssertionView,
)
    requires
        document::well_formed(t),
        saml::validation(t, key, terms, canon) == Ok::<saml::AssertionView, Seq<char>>(accepted),
    ensures
        ({
            let assertion = saml::assertions_of(t)[0];
            &&& is_text_within(t, assertion, "NameID"@, accepted.subject)
            &&& accepted.issuer matches Some(name) ==> is_text_within(
                t,
                assertion,
                "Issuer"@,
                name,
            )
            &&& forall|name: Seq<char>, k: int|
                accepted.attributes.contains_key(name) && 0 <= k < accepted.attributes[name].len()
                    ==> is_text_within(
                    t,
                    assertion,
                    "AttributeValue"@,
                    #[trigger] accepted.attributes[name][k],
                )
        }),
{
    document::lemma_matching(
        t.len(),
        document::pick_elements(t, "Assertion"@, Some(saml::SAML@)),
    );
    lemma_read_within(t, saml::assertions_of(t)[0], terms, accepted);
}

/// Whether two trees agree in the subtree of `a`: it has the same nodes in both.
pub open spec fn agree_within(t: dsig::Tree, u: dsig::Tree, a: int) -> bool {
    &&& t.len() == u.len()
    &&& forall|i: int|
        0 <= i < t.len() ==> (#[trigger] document::within(t, i, a) <==> document::within(u, i, a))
    &&& forall|i: int| #[trigger] document::within(t, i, a) ==> t[i] == u[i]
}

/// Trees that agree in a subtree have the same subtrees in it.
proof fn lemma_same_within(t: dsig::Tree, u: dsig::Tree, a: int, j: int, i: int)
    requires
        agree_within(t, u, a),
        document::within(t, i, a),
    ensures
        document::within(t, j, i) == document::within(u, j, i),
    decreases j,
{
    if document::within(t, j, i) {
        law_within_transitive(t, j, i, a);
    }
    if document::within(u, j, i) {
        assert(document::within(u, i, a));
        law_within_transitive(u, j, i, a);
        assert(document::within(t, j, a));
    }
    if document::within(t, j, a) && j != i {
        match t[j].parent {
            Some(p) => if 0 <= p < j {
                lemma_same_within(t, u, a, p, i);
            },
            None => {},
        }
    }
}

/// Trees that agree in a subtree have the same children under nodes in it.
proof fn lemma_same_children(
    t: dsig::Tree,
    u: dsig::Tree,
    a: int,
    parents: Seq<int>,
    local: Seq<char>,
    ns: Option<Seq<char>>,
)
    requires
        document::well_formed(t),
        document::well_formed(u),
        agree_within(t, u, a),
        forall|k: int| 0 <= k < parents.len() ==> document::within(t, #[trigger] parents[k], a),
    ensures
        document::children_named(t, parents, local, ns) == document::children_named(
            u,
            parents,
            local,
            ns,
        ),
{
    let p = document::pick_children(t, parents, local, ns);
    let q = document::pick_children(u, parents, local, ns);
    assert forall|i: int| 0 <= i < t.len() implies (#[trigger] p(i) <==> q(i)) by {
        document::lemma_parent(t, i);
        document::lemma_parent(u, i);
        if p(i) {
            let k = choose|k: int|
                0 <= k < parents.len() && parents[k] == t[i].parent->Some_0;
            assert(document::within(t, parents[k], a));
            assert(document::within(t, i, a));
        }
        if q(i) {
            let k = choose|k: int|
                0 <= k < parents.len() && parents[k] == u[i].parent->Some_0;
            assert(document::within(t, parents[k], a));
            assert(document::within(u, i, a));
            assert(document::within(t, i, a));
        }
    }
    document::lemma_same_matching(t.len(), p, q);
}

/// Trees that agree in a subtree have the same descendants in it.
proof fn lemma_same_descendants(
    t: dsig::Tree,
    u: dsig::Tree,
    a: int,
    local: Seq<char>,
    ns: Option<Seq<char>>,
)
    requires
        agree_within(t, u, a),
    ensures
        document::descendants_named(t, a, local, ns) == document::descendants_named(
            u,
            a,
            local,
            ns,
        ),
{
    let p = document::pick_descendants(t, a, local, ns);
    let q = document::pick_descendants(u, a, local, ns);
    assert forall|i: int| 0 <= i < t.len() implies (#[trigger] p(i) <==> q(i)) by {
        assert(document::within(t, i, a) <==> document::within(u, i, a));
    }
    document::lemma_same_matching(t.len(), p, q);
}

/// Trees that agree in a subtree have the same text in it.
proof fn lemma_same_content(t: dsig::Tree, u: dsig::Tree, a: int, i: int, n: nat)
    requires
        agree_within(t, u, a),
        document::within(t, i, a),
        n <= t.len(),
    ensures
        document::content_before(t, i, n) == document::content_before(u, i, n),
    decreases n,
{
    if n > 0 {
        lemma_same_content(t, u, a, i, (n - 1) as nat);
        lemma_same_within(t, u, a, n - 1, i);
        if document::within(t, n - 1, i) {
            law_within_transitive(t, n - 1, i, a);
        }
    }
}

/// Trees that agree in a subtree have the same texts in it.
proof fn lemma_same_contents(t: dsig::Tree, u: dsig::Tree, a: int, s: Seq<int>)
    requires
        agree_within(t, u, a),
        forall|k: int| 0 <= k < s.len() ==> document::within(t, #[trigger] s[k], a),
    ensures
        saml::contents_of(t, s) == saml::contents_of(u, s),
{
    assert forall|k: int| 0 <= k < s.len() implies saml::contents_of(t, s)[k]
        == saml::contents_of(u, s)[k] by {
        assert(document::within(t, s[k], a));
        lemma_same_content(t, u, a, s[k], t.len());
    }
    assert(saml::contents_of(t, s) =~= saml::contents_of(u, s));
}

/// Trees that agree in a subtree have the same attributes there.
proof fn lemma_same_attributes(t: dsig::Tree, u: dsig::Tree, a: int, s: Seq<int>)
    requires
        document::well_formed(t),
        document::well_formed(u),
        agree_within(t, u, a),
        forall|k: int| 0 <= k < s.len() ==> document::within(t, #[trigger] s[k], a),
    ensures
        saml::attributes_from(t, s) == saml::attributes_from(u, s),
    decreases s.len(),
{
    if s.len() > 0 {
        assert forall|k: int| 0 <= k < s.drop_last().len() implies document::within(
            t,
            #[trigger] s.drop_last()[k],
            a,
        ) by {
            assert(document::within(t, s[k], a));
        }
        lemma_same_attributes(t, u, a, s.drop_last());
        let last = s[s.len() - 1];
        assert(document::within(t, last, a));
        lemma_children_within(t, seq![last], "AttributeValue"@, None, a);
        lemma_same_children(t, u, a, seq![last], "AttributeValue"@, None);
        lemma_same_contents(
            t,
            u,
            a,
            document::children_named(t, seq![last], "AttributeValue"@, None),
        );
    }
}

/// Trees that agree in a subtree agree in every subtree of it.
proof fn lemma_agree_below(t: dsig::Tree, u: dsig::Tree, a: int, c: int)
    requires
        agree_within(t, u, a),
        document::within(t, c, a),
    ensures
        agree_within(t, u, c),
{
    assert forall|i: int| 0 <= i < t.len() implies (#[trigger] document::within(t, i, c)
        <==> document::within(u, i, c)) by {
        lemma_same_within(t, u, a, i, c);
    }
    assert forall|i: int| #[trigger] document::within(t, i, c) implies t[i] == u[i] by {
        law_within_transitive(t, i, c, a);
    }
}

/// Trees that agree in a subtree have the same children under the descendants of
/// a name in it, and these are in it.
proof fn lemma_same_grandchildren(
    t: dsig::Tree,
    u: dsig::Tree,
    a: int,
    outer: Seq<char>,
    inner: Seq<char>,
)
    requires
        document::well_formed(t),
        document::well_formed(u),
        agree_within(t, u, a),
    ensures
        ({
            let parents = document::descendants_named(t, a, outer, None);
            let s = document::children_named(t, parents, inner, None);
            &&& document::descendants_named(u, a, outer, None) == parents
            &&& document::children_named(u, parents, inner, None) == s
            &&& forall|k: int| 0 <= k < s.len() ==> document::within(t, #[trigger] s[k], a)
        }),
{
    let parents = document::descendants_named(t, a, outer, None);
    lemma_same_descendants(t, u, a, outer, None);
    lemma_descendants_within(t, a, outer, None);
    lemma_same_children(t, u, a, parents, inner, None);
    lemma_children_within(t, parents, inner, None, a);
}

/// Trees that agree in an assertion have the same verdict on its conditions.
proof fn lemma_same_conditions(
    t: dsig::Tree,
    u: dsig::Tree,
    a: int,
    terms: saml::TermsView,
)
    requires
        document::well_formed(t),
        document::well_formed(u),
        document::within(t, a, a),
        agree_within(t, u, a),
    ensures
        saml::conditions_verdict(t, a, terms) == saml::conditions_verdict(u, a, terms),
{
    lemma_same_children(t, u, a, seq![a], "Conditions"@, Some(saml::SAML@));
    lemma_children_within(t, seq![a], "Conditions"@, Some(saml::SAML@), a);
    let conditions = document::children_named(t, seq![a], "Conditions"@, Some(saml::SAML@));
    if conditions.len() > 0 {
        let c = conditions[0];
        assert(document::within(t, c, a));
        lemma_agree_below(t, u, a, c);
        lemma_same_grandchildren(t, u, c, "AudienceRestriction"@, "Audience"@);
        lemma_same_contents(t, u, c, saml::audience_elements_of(t, c));
    }
}

/// Nothing outside an assertion has a part in what is read of it: two documents
/// that agree in the subtree of the assertion give the same result, be it an
/// identity or a refusal.
pub proof fn law_outside_is_ignored(
    t: dsig::Tree,
    u: dsig::Tree,
    assertion: int,
    terms: saml::TermsView,
)
    requires
        document::well_formed(t),
        document::well_formed(u),
        0 <= assertion < t.len(),
        agree_within(t, u, assertion),
    ensures
        saml::assertion_result(t, assertion, terms) == saml::assertion_result(u, assertion, terms),
{
    let a = assertion;
    assert(document::within(t, a, a));
    assert(saml::issuer_of(t, a) == saml::issuer_of(u, a)) by {
        lemma_same_children(t, u, a, seq![a], "Issuer"@, Some(saml::SAML@));
        lemma_children_within(t, seq![a], "Issuer"@, Some(saml::SAML@), a);
        let issuers = document::children_named(t, seq![a], "Issuer"@, Some(saml::SAML@));
        if issuers.len() > 0 {
            assert(document::within(t, issuers[0], a));
            lemma_same_content(t, u, a, issuers[0], t.len());
        }
    }
    lemma_same_conditions(t, u, a, terms);
    assert(saml::subject_of(t, a) == saml::subject_of(u, a)) by {
        lemma_same_grandchildren(t, u, a, "Subject"@, "NameID"@);
        let name_ids = saml::name_ids_of(t, a);
        if name_ids.len() > 0 {
            assert(document::within(t, name_ids[0], a));
            lemma_same_content(t, u, a, name_ids[0], t.len());
        }
    }
    assert(saml::attributes_from(t, saml::attribute_elements_of(t, a)) == saml::attributes_from(
        u,
        saml::attribute_elements_of(u, a),
    )) by {
        lemma_same_grandchildren(t, u, a, "AttributeStatement"@, "Attribute"@);
        lemma_same_attributes(t, u, a, saml::attribute_elements_of(t, a));
    }
}

/// The end of the validity of an assertion as it is declared, if it is.
pub open spec fn declared_end(t: dsig::Tree, assertion: int) -> Option<Result<i128, Seq<char>>> {
    match document::child_named(t, assertion, "Conditions"@, Some(saml::SAML@)) {
        Some(c) => saml::instant_attribute(t, c, "NotOnOrAfter"@),
        None => None,
    }
}

/// The begin of the validity of an assertion as it is declared, if it is.
pub open spec fn declared_begin(t: dsig::Tree, assertion: int) -> Option<Result<i128, Seq<char>>> {
    match document::child_named(t, assertion, "Conditions"@, Some(saml::SAML@)) {
        Some(c) => saml::instant_attribute(t, c, "NotBefore"@),
        None => None,
    }
}

/// The audiences that the audience restrictions of an assertion list.
pub open spec fn declared_audiences(t: dsig::Tree, assertion: int) -> Seq<Seq<char>> {
    match document::child_named(t, assertion, "Conditions"@, Some(saml::SAML@)) {
        Some(c) => saml::audiences_of(t, c),
        None => Seq::empty(),
    }
}

/// What an accepted assertion declares meets the terms: the ends of its validity
/// that it declares can be read and hold the time, give or take the clock skew;
/// it declares an end unless that is waived; it lists the audience and names the
/// issuer that are configured.
pub proof fn law_accepted_meets_terms(
    t: dsig::Tree,
    key: crypto::KeyView,
    terms: saml::TermsView,
    canon: dsig::Canon,
    accepted: saml::AssertionView,
)
    requires
        saml::validation(t, key, terms, canon) == Ok::<saml::AssertionView, Seq<char>>(accepted),
    ensures
        ({
            let assertion = saml::assertions_of(t)[0];
            &&& declared_begin(t, assertion) matches Some(begin) ==> begin matches Ok(nb) && nb
                <= terms.now + terms.clock_skew
            &&& declared_end(t, assertion) matches Some(end) ==> end matches Ok(na) && terms.now
                - terms.clock_skew < na
            &&& declared_end(t, assertion) is None ==> terms.allow_unbounded_lifetime
            &&& terms.audience matches Some(name) ==> declared_audiences(t, assertion).contains(
                name,
            )
            &&& terms.issuer matches Some(name) ==> accepted.issuer == Some(name)
        }),
{
}

/// An expired assertion is refused, then and at any later time.
pub proof fn law_expired_stays_refused(
    t: dsig::Tree,
    key: crypto::KeyView,
    terms: saml::TermsView,
    canon: dsig::Canon,
    end: i128,
    later: int,
)
    requires
        saml::assertions_of(t).len() == 1,
        declared_end(t, saml::assertions_of(t)[0]) == Some(Ok::<i128, Seq<char>>(end)),
        terms.now - terms.clock_skew >= end,
        terms.now <= later,
    ensures
        saml::validation(t, key, terms, canon) is Err,
        saml::validation(t, key, (saml::TermsView { now: later, ..terms }), canon) is Err,
{
}

/// An assertion that declares no end of its validity is refused unless that is
/// waived.
pub proof fn law_unbounded_lifetime_refused(
    t: dsig::Tree,
    key: crypto::KeyView,
    terms: saml::TermsView,
    canon: dsig::Canon,
)
    requires
        saml::assertions_of(t).len() == 1,
        declared_end(t, saml::assertions_of(t)[0]) is None,
        !terms.allow_unbounded_lifetime,
    ensures
        saml::validation(t, key, terms, canon) is Err,
{
}

/// Whether `lax` demands no more than `strict` at the same instant: each issuer
/// and audience that it names is the same, its clock skew is no smaller, and it
/// does not take back a waiver.
pub open spec fn demands_no_more(lax: saml::TermsView, strict: saml::TermsView) -> bool {
    &&& lax.issuer is Some ==> lax.issuer == strict.issuer
    &&& lax.audience is Some ==> lax.audience == strict.audience
    &&& lax.now == strict.now
    &&& lax.clock_skew >= strict.clock_skew
    &&& strict.allow_unbounded_lifetime ==> lax.allow_unbounded_lifetime
}

/// What is accepted under some terms is accepted, as the same, under terms that
/// demand no more: in particular, more clock skew never turns acceptance into a
/// refusal.
pub proof fn law_laxer_terms_accept(
    t: dsig::Tree,
    key: crypto::KeyView,
    strict: saml::TermsView,
    lax: saml::TermsView,
    canon: dsig::Canon,
)
    requires
        demands_no_more(lax, strict),
        saml::validation(t, key, strict, canon) is Ok,
    ensures
        saml::validation(t, key, lax, canon) == saml::validation(t, key, strict, canon),
{
}

} // verus!
