//! Which assertions are accepted, and what is read of them.

use crate::crypto;
use crate::crypto::RsaKey;
use crate::document;
use crate::document::Document;
use crate::dsig;
use crate::instant;
use crate::laws::tree;
use crate::saml;
use crate::saml::{Terms, ValidateStep, Validation, VerifiedAssertion};
use crate::text;
use vstd::prelude::*;

verus! {

/// The name of the assertion namespace.
pub proof fn law_assertion_namespace()
    ensures
        saml::SAML@ == "urn:oasis:names:tc:SAML:2.0:assertion"@,
{
}

/// The views of terms, assertions and results hold what these hold.
pub proof fn law_assertion_views(
    a: VerifiedAssertion,
    e: String,
    i: i128,
    issuer: Option<&str>,
    audience: Option<&str>,
    now: i128,
    clock_skew: i128,
    allow_unbounded_lifetime: bool,
)
    ensures
        saml::assertion_or_text(Ok(a)) matches Ok(v) && v.subject == a.subject@ && v.issuer
            == text::text_of(a.issuer) && v.attributes == a.attributes@,
        saml::assertion_or_text(Err(e)) == Err::<saml::AssertionView, Seq<char>>(e@),
        instant::instant_or_text(Ok(i)) == Ok::<i128, Seq<char>>(i),
        instant::instant_or_text(Err(e)) == Err::<i128, Seq<char>>(e@),
        saml::optional_instant(None) is None,
        saml::optional_instant(Some(Ok(i))) == Some(Ok::<i128, Seq<char>>(i)),
        saml::optional_instant(Some(Err(e))) == Some(Err::<i128, Seq<char>>(e@)),
        ({
            let view = (Terms { issuer, audience, now, clock_skew, allow_unbounded_lifetime })@;
            &&& view.issuer == text::str_text(issuer)
            &&& view.audience == text::str_text(audience)
            &&& view.now == now
            &&& view.clock_skew == clock_skew
            &&& view.allow_unbounded_lifetime == allow_unbounded_lifetime
        }),
{
}

// ---------------------------------------------------------------------------
// Conditions
// ---------------------------------------------------------------------------
/// A SAML timestamp is the RFC 3339 timestamp between the white space around it.
pub proof fn law_timestamp(s: Seq<char>, i: i128, e: Seq<char>)
    ensures
        instant::saml_instant(s) == Ok::<i128, Seq<char>>(i) <==> instant::rfc3339_instant(
            text::trimmed(s),
        ) == Ok::<i128, Seq<char>>(i),
        instant::rfc3339_instant(text::trimmed(s)) == Err::<i128, Seq<char>>(e)
            ==> instant::saml_instant(s) == Err::<i128, Seq<char>>(
            "bad dateTime '"@ + s + "': "@ + e,
        ),
{
}

/// An end of the window is declared where the attribute is there, and is what the
/// attribute says.
pub proof fn law_declared_instant(t: dsig::Tree, i: int, name: Seq<char>, s: Seq<char>)
    ensures
        document::attribute_of(t, i, name) == Some(s) ==> saml::instant_attribute(t, i, name)
            == Some(instant::saml_instant(s)),
        document::attribute_of(t, i, name) is None ==> saml::instant_attribute(t, i, name) is None,
{
}

/// A window is met exactly where each end that is declared can be read, the time
/// is neither before the begin nor at or after the end, give or take the skew, and
/// an end is declared unless that is waived. Nothing else counts: neither how long
/// the window is nor where in it the time lies.
pub proof fn law_window(
    not_before: Option<Result<i128, Seq<char>>>,
    not_on_or_after: Option<Result<i128, Seq<char>>>,
    now: int,
    clock_skew: int,
    allow_unbounded_lifetime: bool,
)
    ensures
        saml::window_verdict(
            not_before,
            not_on_or_after,
            now,
            clock_skew,
            allow_unbounded_lifetime,
        ) is Ok <==> {
            &&& match not_before {
                None => true,
                Some(Ok(nb)) => nb - clock_skew <= now,
                Some(Err(_)) => false,
            }
            &&& match not_on_or_after {
                None => allow_unbounded_lifetime,
                Some(Ok(na)) => now < na + clock_skew,
                Some(Err(_)) => false,
            }
        },
{
}

/// Why a window is not met: the begin comes first, then the end.
pub proof fn law_window_refusals(
    not_before: Option<Result<i128, Seq<char>>>,
    not_on_or_after: Option<Result<i128, Seq<char>>>,
    now: int,
    clock_skew: int,
    allow_unbounded_lifetime: bool,
    nb: i128,
    na: i128,
    e: Seq<char>,
)
    ensures
        ({
            let verdict = saml::window_verdict(
                not_before,
                not_on_or_after,
                now,
                clock_skew,
                allow_unbounded_lifetime,
            );
            let begun = not_before is None || (not_before == Some(Ok::<i128, Seq<char>>(nb)) && nb
                <= now + clock_skew);
            &&& not_before == Some(Err::<i128, Seq<char>>(e)) ==> verdict == Err::<(), Seq<char>>(e)
            &&& not_before == Some(Ok::<i128, Seq<char>>(nb)) && now + clock_skew < nb ==> verdict
                == Err::<(), Seq<char>>("Assertion not yet valid (Conditions/NotBefore)"@)
            &&& begun && not_on_or_after == Some(Err::<i128, Seq<char>>(e)) ==> verdict == Err::<
                (),
                Seq<char>,
            >(e)
            &&& begun && not_on_or_after == Some(Ok::<i128, Seq<char>>(na)) && now - clock_skew
                >= na ==> verdict == Err::<(), Seq<char>>(
                "Assertion expired (Conditions/NotOnOrAfter)"@,
            )
            &&& begun && not_on_or_after is None && !allow_unbounded_lifetime ==> verdict == Err::<
                (),
                Seq<char>,
            >(
                "Assertion declares no Conditions/NotOnOrAfter; refusing a credential that never expires (set allow_unbounded_assertion_lifetime to accept it)"@,
            )
        }),
{
}

/// The check of a window is met exactly where the window is.
pub proof fn law_check_window(
    not_before: Option<i128>,
    not_on_or_after: Option<i128>,
    now: i128,
    clock_skew: i128,
    allow_unbounded_lifetime: bool,
    r: Result<(), String>,
)
    requires
        call_ensures(
            saml::check_window,
            (
                match not_before {
                    Some(nb) => Some(Ok::<i128, String>(nb)),
                    None => None,
                },
                match not_on_or_after {
                    Some(na) => Some(Ok::<i128, String>(na)),
                    None => None,
                },
                now,
                clock_skew,
                allow_unbounded_lifetime,
            ),
            r,
        ),
    ensures
        r is Ok <==> {
            &&& not_before matches Some(nb) ==> nb - clock_skew <= now
            &&& match not_on_or_after {
                Some(na) => now < na + clock_skew,
                None => allow_unbounded_lifetime,
            }
        },
{
}

/// An audience that is demanded must be one of those that are listed; where none
/// is demanded, any list will do.
pub proof fn law_audience(audiences: Seq<Seq<char>>, name: Seq<char>)
    ensures
        saml::audience_verdict(audiences, None) is Ok,
        saml::audience_verdict(audiences, Some(name)) is Ok <==> exists|k: int|
            0 <= k < audiences.len() && #[trigger] audiences[k] == name,
        !audiences.contains(name) ==> saml::audience_verdict(audiences, Some(name)) == Err::<
            (),
            Seq<char>,
        >("audience restriction does not include the required audience "@ + name),
{
}

/// The check of an audience asks for the list to hold it.
pub proof fn law_check_audience(audiences: &Vec<String>, expected: &str, r: Result<(), String>)
    requires
        call_ensures(saml::check_audience, (audiences, Some(expected)), r),
    ensures
        r is Ok <==> exists|k: int|
            0 <= k < audiences@.len() && (#[trigger] audiences@[k])@ == expected@,
{
    let all = audiences.deep_view();
    if r is Ok {
        let k = choose|k: int| 0 <= k < all.len() && all[k] == expected@;
        assert(audiences@[k]@ == expected@);
    }
    if exists|k: int| 0 <= k < audiences@.len() && (#[trigger] audiences@[k])@ == expected@ {
        let k = choose|k: int|
            0 <= k < audiences@.len() && (#[trigger] audiences@[k])@ == expected@;
        assert(all[k] == expected@);
    }
}

/// An issuer that is expected must be the one that is named; where none is
/// expected, any will do, and none too.
pub proof fn law_issuer(issuer: Option<Seq<char>>, name: Seq<char>, found: Seq<char>)
    ensures
        saml::issuer_verdict(issuer, None) is Ok,
        saml::issuer_verdict(issuer, Some(name)) is Ok <==> issuer is Some && issuer->Some_0 == name,
        found != name ==> saml::issuer_verdict(Some(found), Some(name)) == Err::<(), Seq<char>>(
            "Issuer mismatch (expected "@ + name + ", got "@ + ("Some("@ + text::debug_text(found)
                + ")"@) + ")"@,
        ),
        saml::issuer_verdict(None, Some(name)) == Err::<(), Seq<char>>(
            "Issuer mismatch (expected "@ + name + ", got "@ + "None"@ + ")"@,
        ),
{
}

/// The check of an issuer asks for the expected name, letter for letter.
pub proof fn law_check_issuer(issuer: &Option<String>, expected: Option<&str>, r: Result<(), String>)
    requires
        call_ensures(saml::check_issuer, (issuer, expected), r),
    ensures
        r is Ok <==> match expected {
            Some(name) => issuer is Some && issuer->Some_0@ == name@,
            None => true,
        },
{
}

/// The conditions of an assertion are met exactly where its window is and its
/// audiences are; without conditions, exactly where no audience is demanded and no
/// end of the validity.
pub proof fn law_conditions(t: dsig::Tree, assertion: int, terms: saml::TermsView, c: int)
    ensures
        document::child_named(
            t,
            assertion,
            "Conditions"@,
            Some("urn:oasis:names:tc:SAML:2.0:assertion"@),
        ) == Some(c) ==> (saml::conditions_verdict(t, assertion, terms) is Ok <==> {
            &&& saml::window_verdict(
                saml::instant_attribute(t, c, "NotBefore"@),
                saml::instant_attribute(t, c, "NotOnOrAfter"@),
                terms.now,
                terms.clock_skew,
                terms.allow_unbounded_lifetime,
            ) is Ok
            &&& saml::audience_verdict(saml::audiences_of(t, c), terms.audience) is Ok
        }),
        document::child_named(
            t,
            assertion,
            "Conditions"@,
            Some("urn:oasis:names:tc:SAML:2.0:assertion"@),
        ) is None ==> (saml::conditions_verdict(t, assertion, terms) is Ok <==> terms.audience
            is None && terms.allow_unbounded_lifetime),
{
}

/// Why conditions are not met: without any, the audience comes first; else the
/// window does.
pub proof fn law_conditions_refusals(
    t: dsig::Tree,
    assertion: int,
    terms: saml::TermsView,
    c: int,
    e: Seq<char>,
)
    ensures
        ({
            let conditions = document::child_named(
                t,
                assertion,
                "Conditions"@,
                Some("urn:oasis:names:tc:SAML:2.0:assertion"@),
            );
            let window = saml::window_verdict(
                saml::instant_attribute(t, c, "NotBefore"@),
                saml::instant_attribute(t, c, "NotOnOrAfter"@),
                terms.now,
                terms.clock_skew,
                terms.allow_unbounded_lifetime,
            );
            let audience = saml::audience_verdict(saml::audiences_of(t, c), terms.audience);
            let verdict = saml::conditions_verdict(t, assertion, terms);
            &&& conditions is None && terms.audience is Some ==> verdict == Err::<(), Seq<char>>(
                "Assertion has no Conditions but an audience is required"@,
            )
            &&& (conditions is None && terms.audience is None && !terms.allow_unbounded_lifetime)
                ==> verdict == Err::<(), Seq<char>>(
                "Assertion carries no Conditions at all, so it declares no validity window; refusing a credential that never expires (set allow_unbounded_assertion_lifetime to accept it)"@,
            )
            &&& conditions == Some(c) && window == Err::<(), Seq<char>>(e) ==> verdict == Err::<
                (),
                Seq<char>,
            >(e)
            &&& (conditions == Some(c) && window is Ok && audience == Err::<(), Seq<char>>(e))
                ==> verdict == Err::<(), Seq<char>>(e)
        }),
{
}

// ---------------------------------------------------------------------------
// What is read
// ---------------------------------------------------------------------------
/// Whether node `i` is an element named `inner` whose parent is an element named
/// `outer` below `a`.
pub open spec fn is_grandchild(
    t: dsig::Tree,
    a: int,
    outer: Seq<char>,
    inner: Seq<char>,
    i: int,
) -> bool {
    &&& tree::is_element(t, i, inner, None)
    &&& t[i].parent matches Some(p)
    &&& tree::is_element(t, p, outer, None)
    &&& p != a
    &&& tree::leads_up(t, p, a)
}

/// The children of the descendants of a name.
proof fn lemma_grandchildren(t: dsig::Tree, a: int, outer: Seq<char>, inner: Seq<char>)
    ensures
        tree::lists(
            document::children_named(
                t,
                document::descendants_named(t, a, outer, None),
                inner,
                None,
            ),
            t.len(),
            |i: int| is_grandchild(t, a, outer, inner, i),
        ),
{
    let parents = document::descendants_named(t, a, outer, None);
    let s = document::children_named(t, parents, inner, None);
    tree::law_descendants(t, a, outer, None);
    tree::law_children(t, parents, inner, None);
    let g = |i: int|
        tree::is_element(t, i, outer, None) && i != a && tree::leads_up(t, i, a);
    let p = |i: int|
        tree::is_element(t, i, inner, None) && t[i].parent is Some && parents.contains(
            t[i].parent->Some_0,
        );
    let q = |i: int| is_grandchild(t, a, outer, inner, i);
    assert(tree::lists(parents, t.len(), g));
    assert(tree::lists(s, t.len(), p));
    assert forall|i: int| #[trigger] s.contains(i) <==> 0 <= i < t.len() && q(i) by {
        if q(i) {
            assert(g(t[i].parent->Some_0));
            assert(parents.contains(t[i].parent->Some_0));
            assert(p(i));
        }
        if s.contains(i) {
            assert(p(i));
            assert(parents.contains(t[i].parent->Some_0));
            assert(g(t[i].parent->Some_0));
        }
    }
}

/// What is read of an assertion is taken from these elements, all of them and in
/// document order: the name identifiers under its subjects, the attributes under
/// its attribute statements, and the audiences under the audience restrictions of
/// its conditions.
pub proof fn law_elements_that_are_read(t: dsig::Tree, assertion: int, conditions: int)
    ensures
        tree::lists(
            saml::name_ids_of(t, assertion),
            t.len(),
            |i: int| is_grandchild(t, assertion, "Subject"@, "NameID"@, i),
        ),
        tree::lists(
            saml::attribute_elements_of(t, assertion),
            t.len(),
            |i: int| is_grandchild(t, assertion, "AttributeStatement"@, "Attribute"@, i),
        ),
        tree::lists(
            saml::audience_elements_of(t, conditions),
            t.len(),
            |i: int| is_grandchild(t, conditions, "AudienceRestriction"@, "Audience"@, i),
        ),
{
    lemma_grandchildren(t, assertion, "Subject"@, "NameID"@);
    lemma_grandchildren(t, assertion, "AttributeStatement"@, "Attribute"@);
    lemma_grandchildren(t, conditions, "AudienceRestriction"@, "Audience"@);
}

/// The contents of elements are their texts without the white space around them,
/// one by one; so are the audiences and the values of an attribute.
pub proof fn law_contents(t: dsig::Tree, s: Seq<int>, k: int, c: int, element: int)
    ensures
        saml::contents_of(t, s).len() == s.len(),
        0 <= k < s.len() ==> saml::contents_of(t, s)[k] == text::trimmed(
            document::content_of(t, s[k]),
        ),
        saml::audiences_of(t, c) == saml::contents_of(t, saml::audience_elements_of(t, c)),
        saml::values_of(t, element) == saml::contents_of(
            t,
            document::children_named(t, seq![element], "AttributeValue"@, None),
        ),
{
}

/// The issuer of an assertion is the text of its first `Issuer` child, where that
/// is not blank.
pub proof fn law_issuer_of(t: dsig::Tree, assertion: int, name: Seq<char>)
    ensures
        saml::issuer_of(t, assertion) == Some(name) <==> {
            &&& document::child_named(
                t,
                assertion,
                "Issuer"@,
                Some("urn:oasis:names:tc:SAML:2.0:assertion"@),
            ) matches Some(i)
            &&& name == text::trimmed(document::content_of(t, i))
            &&& name.len() > 0
        },
{
}

/// The subject of an assertion is the text of its first name identifier, where
/// that is not blank.
pub proof fn law_subject(t: dsig::Tree, assertion: int, name: Seq<char>)
    ensures
        saml::subject_of(t, assertion) == Some(name) <==> {
            let name_ids = saml::name_ids_of(t, assertion);
            &&& name_ids.len() > 0
            &&& name == text::trimmed(document::content_of(t, name_ids[0]))
            &&& name.len() > 0
        },
{
}

/// What each element adds to the values under a name: its values, where it has
/// that name.
pub open spec fn contributions(t: dsig::Tree, s: Seq<int>, name: Seq<char>) -> Seq<Seq<Seq<char>>> {
    Seq::new(
        s.len(),
        |k: int|
            if document::attribute_of(t, s[k], "Name"@) == Some(name) {
                saml::values_of(t, s[k])
            } else {
                Seq::empty()
            },
    )
}

/// An attribute is there exactly where an element has its name, and its values are
/// those of all elements with that name, put together in order.
pub proof fn law_attributes(t: dsig::Tree, s: Seq<int>, name: Seq<char>)
    ensures
        saml::attributes_from(t, s).contains_key(name) <==> exists|k: int|
            0 <= k < s.len() && document::attribute_of(t, #[trigger] s[k], "Name"@) == Some(name),
        saml::values_under(saml::attributes_from(t, s), name) == contributions(
            t,
            s,
            name,
        ).flatten(),
    decreases s.len(),
{
    let m = saml::attributes_from(t, s);
    let all = contributions(t, s, name);
    if s.len() == 0 {
        assert(all =~= Seq::empty());
        assert(all.flatten() =~= Seq::<Seq<char>>::empty());
    } else {
        let init = s.drop_last();
        let last = s[s.len() - 1];
        let earlier = saml::attributes_from(t, init);
        law_attributes(t, init, name);
        assert(all =~= contributions(t, init, name).push(all[s.len() - 1]));
        contributions(t, init, name).lemma_flatten_push(all[s.len() - 1]);
        if document::attribute_of(t, last, "Name"@) == Some(name) {
            assert(m.contains_key(name));
            assert(s[s.len() - 1] == last);
        } else {
            assert(all[s.len() - 1] =~= Seq::<Seq<char>>::empty());
            assert(m.contains_key(name) == earlier.contains_key(name));
            assert(earlier.contains_key(name) ==> m[name] == earlier[name]);
            assert(contributions(t, init, name).flatten() + Seq::<Seq<char>>::empty()
                =~= contributions(t, init, name).flatten());
            if earlier.contains_key(name) {
                let k = choose|k: int|
                    0 <= k < init.len() && document::attribute_of(t, #[trigger] init[k], "Name"@)
                        == Some(name);
                assert(s[k] == init[k]);
            }
            if exists|k: int|
                0 <= k < s.len() && document::attribute_of(t, #[trigger] s[k], "Name"@) == Some(
                    name,
                ) {
                let k = choose|k: int|
                    0 <= k < s.len() && document::attribute_of(t, #[trigger] s[k], "Name"@) == Some(
                        name,
                    );
                assert(init[k] == s[k]);
            }
        }
    }
}

/// The values under a name are those of the map, none where it has no such name.
pub proof fn law_values_under(m: Map<Seq<char>, Seq<Seq<char>>>, name: Seq<char>)
    ensures
        m.contains_key(name) ==> saml::values_under(m, name) == m[name],
        !m.contains_key(name) ==> saml::values_under(m, name).len() == 0,
{
}

/// An assertion is read exactly where its issuer is the expected one, its
/// conditions are met and it has a subject. What is read are that subject, the
/// issuer and the attributes.
pub proof fn law_assertion_is_read(
    t: dsig::Tree,
    assertion: int,
    terms: saml::TermsView,
    read: saml::AssertionView,
)
    ensures
        saml::assertion_result(t, assertion, terms) == Ok::<saml::AssertionView, Seq<char>>(read)
            <==> {
            &&& saml::issuer_verdict(saml::issuer_of(t, assertion), terms.issuer) is Ok
            &&& saml::conditions_verdict(t, assertion, terms) is Ok
            &&& saml::subject_of(t, assertion) == Some(read.subject)
            &&& read.issuer == saml::issuer_of(t, assertion)
            &&& read.attributes == saml::attributes_from(
                t,
                saml::attribute_elements_of(t, assertion),
            )
        },
{
}

/// Why an assertion is not read: the issuer comes first, then the conditions, then
/// the subject.
pub proof fn law_reading_refusals(
    t: dsig::Tree,
    assertion: int,
    terms: saml::TermsView,
    e: Seq<char>,
)
    ensures
        ({
            let issuer = saml::issuer_verdict(saml::issuer_of(t, assertion), terms.issuer);
            let conditions = saml::conditions_verdict(t, assertion, terms);
            let result = saml::assertion_result(t, assertion, terms);
            &&& issuer == Err::<(), Seq<char>>(e) ==> result == Err::<
                saml::AssertionView,
                Seq<char>,
            >(e)
            &&& issuer is Ok && conditions == Err::<(), Seq<char>>(e) ==> result == Err::<
                saml::AssertionView,
                Seq<char>,
            >(e)
            &&& (issuer is Ok && conditions is Ok && saml::subject_of(t, assertion) is None)
                ==> result == Err::<saml::AssertionView, Seq<char>>(
                "Assertion has no Subject/NameID"@,
            )
        }),
{
}

// ---------------------------------------------------------------------------
// Documents
// ---------------------------------------------------------------------------
/// A signature holds nothing that is read exactly where no subject and no
/// attribute statement lies below it.
pub proof fn law_holds_nothing_read(t: dsig::Tree, signature: int)
    ensures
        saml::holds_nothing_read(t, signature) <==> forall|i: int|
            #![trigger t[i]]
            tree::is_element(t, i, "Subject"@, None) || tree::is_element(
                t,
                i,
                "AttributeStatement"@,
                None,
            ) ==> i == signature || !tree::leads_up(t, i, signature),
{
    let subjects = document::descendants_named(t, signature, "Subject"@, None);
    let statements = document::descendants_named(t, signature, "AttributeStatement"@, None);
    tree::law_descendants(t, signature, "Subject"@, None);
    tree::law_descendants(t, signature, "AttributeStatement"@, None);
    let p = |i: int|
        tree::is_element(t, i, "Subject"@, None) && i != signature && tree::leads_up(
            t,
            i,
            signature,
        );
    let q = |i: int|
        tree::is_element(t, i, "AttributeStatement"@, None) && i != signature && tree::leads_up(
            t,
            i,
            signature,
        );
    assert(tree::lists(subjects, t.len(), p));
    assert(tree::lists(statements, t.len(), q));
    if saml::holds_nothing_read(t, signature) {
        assert forall|i: int|
            #![trigger t[i]]
            tree::is_element(t, i, "Subject"@, None) || tree::is_element(
                t,
                i,
                "AttributeStatement"@,
                None,
            ) implies i == signature || !tree::leads_up(t, i, signature) by {
            assert(!subjects.contains(i) && !statements.contains(i));
            assert(!p(i) && !q(i));
        }
    }
    if subjects.len() > 0 {
        assert(subjects.contains(subjects[0]));
        assert(p(subjects[0]));
        assert(t[subjects[0]] == t[subjects[0]]);
    }
    if statements.len() > 0 {
        assert(statements.contains(statements[0]));
        assert(q(statements[0]));
        assert(t[statements[0]] == t[statements[0]]);
    }
}

/// Whether `assertion` is the one and only assertion of a document.
pub open spec fn is_sole_assertion(t: dsig::Tree, assertion: int) -> bool {
    forall|i: int| #[trigger]
        tree::is_element(
            t,
            i,
            "Assertion"@,
            Some("urn:oasis:names:tc:SAML:2.0:assertion"@),
        ) <==> i == assertion
}

/// Whether an assertion is signed as it must be: it has an `ID`, which names it;
/// its first signature child is verified, covers that `ID` and holds nothing that
/// is read.
pub open spec fn is_signed_assertion(
    t: dsig::Tree,
    assertion: int,
    key: crypto::KeyView,
    canon: dsig::Canon,
) -> bool {
    &&& document::attribute_of(t, assertion, "ID"@) matches Some(id)
    &&& document::element_with_attribute(t, "ID"@, id) == Some(assertion)
    &&& document::child_named(
        t,
        assertion,
        "Signature"@,
        Some("http://www.w3.org/2000/09/xmldsig#"@),
    ) matches Some(signature)
    &&& dsig::verification(t, signature, key, canon) matches Ok(covered)
    &&& covered.contains(id)
    &&& saml::holds_nothing_read(t, signature)
}

/// A document with one and only one assertion lists it.
proof fn lemma_sole(t: dsig::Tree, assertion: int)
    ensures
        is_sole_assertion(t, assertion) <==> saml::assertions_of(t) == seq![assertion],
{
    let ns = Some("urn:oasis:names:tc:SAML:2.0:assertion"@);
    let s = saml::assertions_of(t);
    let p = |i: int| tree::is_element(t, i, "Assertion"@, ns);
    tree::law_elements(t, "Assertion"@, ns);
    assert(tree::lists(s, t.len(), p));
    if is_sole_assertion(t, assertion) {
        assert(tree::is_element(t, assertion, "Assertion"@, ns));
        assert(p(assertion));
        assert(s.contains(assertion));
        let k = choose|k: int| 0 <= k < s.len() && s[k] == assertion;
        assert forall|j: int| 0 <= j < s.len() implies s[j] == assertion by {
            assert(s.contains(s[j]));
            assert(p(s[j]));
            assert(tree::is_element(t, s[j], "Assertion"@, ns));
        }
        if s.len() > 1 {
            assert(s[0] < s[1]);
        }
        assert(s =~= seq![assertion]);
    }
    if s == seq![assertion] {
        assert forall|i: int| #[trigger] tree::is_element(t, i, "Assertion"@, ns) <==> i
            == assertion by {
            if tree::is_element(t, i, "Assertion"@, ns) {
                assert(p(i));
                assert(s.contains(i));
            }
            assert(s[0] == assertion);
            assert(s.contains(assertion));
            assert(p(assertion));
        }
    }
}

/// A document is accepted exactly where it has one and only one assertion, be it
/// the root or anywhere below it, that assertion is signed as it must be, and it
/// can be read; what is accepted is what is read of it.
pub proof fn law_document_is_accepted(
    t: dsig::Tree,
    key: crypto::KeyView,
    terms: saml::TermsView,
    canon: dsig::Canon,
    accepted: saml::AssertionView,
)
    ensures
        saml::validation(t, key, terms, canon) == Ok::<saml::AssertionView, Seq<char>>(accepted)
            <==> exists|assertion: int|
            {
                &&& #[trigger] is_sole_assertion(t, assertion)
                &&& is_signed_assertion(t, assertion, key, canon)
                &&& saml::assertion_result(t, assertion, terms) == Ok::<
                    saml::AssertionView,
                    Seq<char>,
                >(accepted)
            },
{
    let s = saml::assertions_of(t);
    if saml::validation(t, key, terms, canon) == Ok::<saml::AssertionView, Seq<char>>(accepted) {
        assert(s =~= seq![s[0]]);
        lemma_sole(t, s[0]);
    }
    if exists|assertion: int|
        {
            &&& #[trigger] is_sole_assertion(t, assertion)
            &&& is_signed_assertion(t, assertion, key, canon)
            &&& saml::assertion_result(t, assertion, terms) == Ok::<
                saml::AssertionView,
                Seq<char>,
            >(accepted)
        } {
        let assertion = choose|assertion: int|
            {
                &&& #[trigger] is_sole_assertion(t, assertion)
                &&& is_signed_assertion(t, assertion, key, canon)
                &&& saml::assertion_result(t, assertion, terms) == Ok::<
                    saml::AssertionView,
                    Seq<char>,
                >(accepted)
            };
        lemma_sole(t, assertion);
        assert(0 <= assertion < t.len()) by {
            assert(tree::is_element(
                t,
                assertion,
                "Assertion"@,
                Some("urn:oasis:names:tc:SAML:2.0:assertion"@),
            ));
        }
    }
}

/// In a document with one and only one assertion that is signed as it must be,
/// wherever it stands, validation is the reading of that assertion, be it an
/// identity or a refusal.
pub proof fn law_signed_document_is_read(
    t: dsig::Tree,
    assertion: int,
    key: crypto::KeyView,
    terms: saml::TermsView,
    canon: dsig::Canon,
)
    requires
        is_sole_assertion(t, assertion),
        is_signed_assertion(t, assertion, key, canon),
    ensures
        saml::validation(t, key, terms, canon) == saml::assertion_result(t, assertion, terms),
{
    lemma_sole(t, assertion);
    assert(tree::is_element(
        t,
        assertion,
        "Assertion"@,
        Some("urn:oasis:names:tc:SAML:2.0:assertion"@),
    ));
}

/// Why a document is refused before anything is verified, and where the signature
/// does not protect the assertion.
pub proof fn law_document_refusals(
    t: dsig::Tree,
    assertion: int,
    key: crypto::KeyView,
    terms: saml::TermsView,
    canon: dsig::Canon,
    id: Seq<char>,
    signature: int,
    e: Seq<char>,
)
    ensures
        ({
            let result = saml::validation(t, key, terms, canon);
            let found_id = document::attribute_of(t, assertion, "ID"@);
            let found_signature = document::child_named(
                t,
                assertion,
                "Signature"@,
                Some("http://www.w3.org/2000/09/xmldsig#"@),
            );
            let verified = dsig::verification(t, signature, key, canon);
            &&& t.len() == 0 ==> result == Err::<saml::AssertionView, Seq<char>>("empty document"@)
            &&& (t.len() > 0 && forall|i: int|
                !#[trigger] tree::is_element(
                    t,
                    i,
                    "Assertion"@,
                    Some("urn:oasis:names:tc:SAML:2.0:assertion"@),
                )) ==> result == Err::<saml::AssertionView, Seq<char>>("no SAML Assertion"@)
            &&& is_sole_assertion(t, assertion) ==> {
                &&& found_id is None ==> result == Err::<saml::AssertionView, Seq<char>>(
                    "Assertion has no ID"@,
                )
                &&& found_id is Some && found_signature is None ==> result == Err::<
                    saml::AssertionView,
                    Seq<char>,
                >("Assertion is not signed (no direct ds:Signature child)"@)
                &&& found_id == Some(id) && found_signature == Some(signature) ==> {
                    &&& verified == Err::<Seq<Seq<char>>, Seq<char>>(e) ==> result == Err::<
                        saml::AssertionView,
                        Seq<char>,
                    >(e)
                    &&& (verified is Ok && !is_signed_assertion(t, assertion, key, canon)) ==> result
                        == Err::<saml::AssertionView, Seq<char>>(
                        "signature does not cover the Assertion (#"@ + id + ")"@,
                    )
                }
            }
        }),
{
    let ns = Some("urn:oasis:names:tc:SAML:2.0:assertion"@);
    let s = saml::assertions_of(t);
    lemma_sole(t, assertion);
    tree::law_elements(t, "Assertion"@, ns);
    let p = |i: int| tree::is_element(t, i, "Assertion"@, ns);
    assert(tree::lists(s, t.len(), p));
    if s.len() > 0 {
        assert(s.contains(s[0]));
        assert(p(s[0]));
        assert(tree::is_element(t, s[0], "Assertion"@, ns));
    }
    if is_sole_assertion(t, assertion) {
        assert(tree::is_element(t, assertion, "Assertion"@, ns));
    }
}

/// A document with two assertions is refused as an attempt at wrapping.
pub proof fn law_two_assertions(
    t: dsig::Tree,
    i: int,
    j: int,
    key: crypto::KeyView,
    terms: saml::TermsView,
    canon: dsig::Canon,
)
    requires
        i != j,
        tree::is_element(t, i, "Assertion"@, Some("urn:oasis:names:tc:SAML:2.0:assertion"@)),
        tree::is_element(t, j, "Assertion"@, Some("urn:oasis:names:tc:SAML:2.0:assertion"@)),
    ensures
        saml::validation(t, key, terms, canon) == Err::<saml::AssertionView, Seq<char>>(
            "multiple Assertions (signature-wrapping defense)"@,
        ),
{
    let ns = Some("urn:oasis:names:tc:SAML:2.0:assertion"@);
    let s = saml::assertions_of(t);
    tree::law_elements(t, "Assertion"@, ns);
    let p = |i: int| tree::is_element(t, i, "Assertion"@, ns);
    assert(tree::lists(s, t.len(), p));
    assert(p(i) && p(j));
    assert(s.contains(i) && s.contains(j));
}

/// Whether `steps` is a run of a validation in which every request is answered as
/// `canon` says.
pub open spec fn is_run<'a>(
    steps: Seq<ValidateStep<'a>>,
    replies: Seq<Result<Vec<u8>, String>>,
    canon: dsig::Canon,
) -> bool {
    &&& steps.len() == replies.len() + 1
    &&& forall|k: int|
        #![trigger replies[k]]
        0 <= k < replies.len() ==> {
            &&& steps[k] matches ValidateStep::Canonicalize(v)
            &&& canon(v.requested()) == crypto::bytes_or_text(replies[k])
            &&& call_ensures(Validation::<'a>::resume, (v, replies[k]), steps[k + 1])
        }
}

/// The result stays the same all along a run.
proof fn lemma_run<'a>(
    steps: Seq<ValidateStep<'a>>,
    replies: Seq<Result<Vec<u8>, String>>,
    canon: dsig::Canon,
    k: int,
)
    requires
        is_run(steps, replies, canon),
        0 <= k < steps.len(),
    ensures
        steps[k].outcome(canon) == steps[0].outcome(canon),
    decreases k,
{
    if k > 0 {
        lemma_run(steps, replies, canon, k - 1);
        let reply = replies[k - 1];
        assert(steps[k - 1] is Canonicalize);
    }
}

/// However many requests it takes, a validation that is answered as `canon` says
/// ends in the validation of the document under `canon` and the terms that it was
/// begun with.
pub proof fn law_validation_run<'a>(
    doc: &'a Document,
    key: &'a RsaKey,
    issuer: Option<&'a str>,
    audience: Option<&'a str>,
    now: i128,
    clock_skew: i128,
    allow_unbounded_lifetime: bool,
    canon: dsig::Canon,
    steps: Seq<ValidateStep<'a>>,
    replies: Seq<Result<Vec<u8>, String>>,
)
    requires
        is_run(steps, replies, canon),
        call_ensures(
            saml::validate,
            (doc, key, issuer, audience, now, clock_skew, allow_unbounded_lifetime),
            steps[0],
        ),
        steps.last() is Done,
    ensures
        ({
            let terms = saml::TermsView {
                issuer: text::str_text(issuer),
                audience: text::str_text(audience),
                now: now as int,
                clock_skew: clock_skew as int,
                allow_unbounded_lifetime,
            };
            steps.last() matches ValidateStep::Done(r) && match r {
                Ok(a) => saml::validation(doc@, key@, terms, canon) == Ok::<
                    saml::AssertionView,
                    Seq<char>,
                >(a@),
                Err(e) => saml::validation(doc@, key@, terms, canon) == Err::<
                    saml::AssertionView,
                    Seq<char>,
                >(e@),
            }
        }),
{
    lemma_run(steps, replies, canon, replies.len() as int);
}

} // verus!
