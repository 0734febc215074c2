//! SAML 2.0 assertion validation: the signature (see [`crate::dsig`]) and what
//! makes a signed assertion trustworthy: the defenses against signature
//! wrapping, the conditions (time and audience), the issuer, and the subject and
//! attributes that are read.

use crate::c14n;
use crate::c14n::CanonRequest;
use crate::crypto;
use crate::crypto::RsaKey;
use crate::document;
use crate::document::Document;
use crate::dsig;
use crate::dsig::{Verifier, VerifyStep};
use crate::instant;
use crate::string_map::StringMap;
use crate::text;
use vstd::prelude::*;
use vstd::string::*;

verus! {

/// The namespace of SAML 2.0 assertions.
pub const SAML: &'static str = "urn:oasis:names:tc:SAML:2.0:assertion";

/// SAML attributes: each name with its values.
pub type Attributes = StringMap<Vec<String>>;

/// The trustworthy contents of a verified assertion.
pub struct VerifiedAssertion {
    pub subject: String,
    pub issuer: Option<String>,
    /// Attribute `Name` and its values.
    pub attributes: Attributes,
}

/// The model of a [`VerifiedAssertion`].
pub struct AssertionView {
    pub subject: Seq<char>,
    pub issuer: Option<Seq<char>>,
    pub attributes: Map<Seq<char>, Seq<Seq<char>>>,
}

impl View for VerifiedAssertion {
    type V = AssertionView;

    open spec fn view(&self) -> AssertionView {
        AssertionView {
            subject: self.subject@,
            issuer: text::text_of(self.issuer),
            attributes: self.attributes@,
        }
    }
}

/// What is demanded of an assertion: its issuer and an audience, where they are
/// configured, and that `now` is in its validity window, give or take the clock
/// skew. Instants and skew are in nanoseconds.
pub struct Terms<'a> {
    pub issuer: Option<&'a str>,
    pub audience: Option<&'a str>,
    pub now: i128,
    pub clock_skew: i128,
    pub allow_unbounded_lifetime: bool,
}

/// The model of [`Terms`].
pub struct TermsView {
    pub issuer: Option<Seq<char>>,
    pub audience: Option<Seq<char>>,
    pub now: int,
    pub clock_skew: int,
    pub allow_unbounded_lifetime: bool,
}

impl<'a> View for Terms<'a> {
    type V = TermsView;

    open spec fn view(&self) -> TermsView {
        TermsView {
            issuer: text::str_text(self.issuer),
            audience: text::str_text(self.audience),
            now: self.now as int,
            clock_skew: self.clock_skew as int,
            allow_unbounded_lifetime: self.allow_unbounded_lifetime,
        }
    }
}

/// What a result of an assertion or an error text holds.
pub open spec fn assertion_or_text(r: Result<VerifiedAssertion, String>) -> Result<
    AssertionView,
    Seq<char>,
> {
    match r {
        Ok(a) => Ok(a@),
        Err(e) => Err(e@),
    }
}

// ---------------------------------------------------------------------------
// What validation says
// ---------------------------------------------------------------------------
/// The text content of each of `s`, without white space around it.
pub open spec fn contents_of(t: dsig::Tree, s: Seq<int>) -> Seq<Seq<char>> {
    s.map_values(|i: int| text::trimmed(document::content_of(t, i)))
}

/// The issuer that an assertion names, where it is not blank.
pub open spec fn issuer_of(t: dsig::Tree, assertion: int) -> Option<Seq<char>> {
    match document::child_named(t, assertion, "Issuer"@, Some(SAML@)) {
        None => None,
        Some(i) => {
            let name = text::trimmed(document::content_of(t, i));
            if name.len() > 0 {
                Some(name)
            } else {
                None
            }
        },
    }
}

/// How an optional issuer is shown in an error text, given its `Debug` text.
pub open spec fn shown(name: Option<Seq<char>>) -> Seq<char> {
    match name {
        None => "None"@,
        Some(s) => "Some("@ + s + ")"@,
    }
}

/// The verdict on the issuer of an assertion.
pub open spec fn issuer_verdict(
    issuer: Option<Seq<char>>,
    expected: Option<Seq<char>>,
) -> Result<(), Seq<char>> {
    match expected {
        None => Ok(()),
        Some(name) => if issuer == Some(name) {
            Ok(())
        } else {
            Err(
                "Issuer mismatch (expected "@ + name + ", got "@ + shown(
                    match issuer {
                        Some(s) => Some(text::debug_text(s)),
                        None => None,
                    },
                ) + ")"@,
            )
        },
    }
}

/// The verdict on the validity window of an assertion: what reading its two
/// ends gave, where they are declared, against the time.
pub open spec fn window_verdict(
    not_before: Option<Result<i128, Seq<char>>>,
    not_on_or_after: Option<Result<i128, Seq<char>>>,
    now: int,
    clock_skew: int,
    allow_unbounded_lifetime: bool,
) -> Result<(), Seq<char>> {
    match not_before {
        Some(Err(e)) => Err(e),
        Some(Ok(nb)) if now + clock_skew < nb => Err(
            "Assertion not yet valid (Conditions/NotBefore)"@,
        ),
        _ => match not_on_or_after {
            Some(Err(e)) => Err(e),
            Some(Ok(na)) => if now - clock_skew >= na {
                Err("Assertion expired (Conditions/NotOnOrAfter)"@)
            } else {
                Ok(())
            },
            None => if allow_unbounded_lifetime {
                Ok(())
            } else {
                Err(
                    "Assertion declares no Conditions/NotOnOrAfter; refusing a credential that never expires (set allow_unbounded_assertion_lifetime to accept it)"@,
                )
            },
        },
    }
}

/// What reading an attribute as an instant gives, where the attribute is there.
pub open spec fn instant_attribute(t: dsig::Tree, i: int, name: Seq<char>) -> Option<
    Result<i128, Seq<char>>,
> {
    match document::attribute_of(t, i, name) {
        None => None,
        Some(s) => Some(instant::saml_instant(s)),
    }
}

/// The elements that list an audience in the audience restrictions of the
/// conditions of an assertion.
pub open spec fn audience_elements_of(t: dsig::Tree, conditions: int) -> Seq<int> {
    document::children_named(
        t,
        document::descendants_named(t, conditions, "AudienceRestriction"@, None),
        "Audience"@,
        None,
    )
}

/// The audiences that the audience restrictions of an assertion list.
pub open spec fn audiences_of(t: dsig::Tree, conditions: int) -> Seq<Seq<char>> {
    contents_of(t, audience_elements_of(t, conditions))
}

/// The verdict on the audiences that an assertion lists.
pub open spec fn audience_verdict(
    audiences: Seq<Seq<char>>,
    expected: Option<Seq<char>>,
) -> Result<(), Seq<char>> {
    match expected {
        None => Ok(()),
        Some(name) => if audiences.contains(name) {
            Ok(())
        } else {
            Err("audience restriction does not include the required audience "@ + name)
        },
    }
}

/// The verdict on the conditions of an assertion.
pub open spec fn conditions_verdict(t: dsig::Tree, assertion: int, terms: TermsView) -> Result<
    (),
    Seq<char>,
> {
    match document::child_named(t, assertion, "Conditions"@, Some(SAML@)) {
        Some(c) => match window_verdict(
            instant_attribute(t, c, "NotBefore"@),
            instant_attribute(t, c, "NotOnOrAfter"@),
            terms.now,
            terms.clock_skew,
            terms.allow_unbounded_lifetime,
        ) {
            Err(e) => Err(e),
            Ok(_) => audience_verdict(audiences_of(t, c), terms.audience),
        },
        None => if terms.audience is Some {
            Err("Assertion has no Conditions but an audience is required"@)
        } else if !terms.allow_unbounded_lifetime {
            Err(
                "Assertion carries no Conditions at all, so it declares no validity window; refusing a credential that never expires (set allow_unbounded_assertion_lifetime to accept it)"@,
            )
        } else {
            Ok(())
        },
    }
}

/// The name identifiers of the subjects in an assertion.
pub open spec fn name_ids_of(t: dsig::Tree, assertion: int) -> Seq<int> {
    document::children_named(
        t,
        document::descendants_named(t, assertion, "Subject"@, None),
        "NameID"@,
        None,
    )
}

/// The subject of an assertion: the first name identifier, where it is not
/// blank.
pub open spec fn subject_of(t: dsig::Tree, assertion: int) -> Option<Seq<char>> {
    match document::first_of(name_ids_of(t, assertion)) {
        None => None,
        Some(i) => {
            let name = text::trimmed(document::content_of(t, i));
            if name.len() > 0 {
                Some(name)
            } else {
                None
            }
        },
    }
}

/// The attribute elements in the attribute statements of an assertion.
pub open spec fn attribute_elements_of(t: dsig::Tree, assertion: int) -> Seq<int> {
    document::children_named(
        t,
        document::descendants_named(t, assertion, "AttributeStatement"@, None),
        "Attribute"@,
        None,
    )
}

/// The values of an attribute element.
pub open spec fn values_of(t: dsig::Tree, element: int) -> Seq<Seq<char>> {
    contents_of(t, document::children_named(t, seq![element], "AttributeValue"@, None))
}

/// The values under `name` in `m`, none where there is no such name.
pub open spec fn values_under(
    m: Map<Seq<char>, Seq<Seq<char>>>,
    name: Seq<char>,
) -> Seq<Seq<char>> {
    if m.contains_key(name) {
        m[name]
    } else {
        Seq::empty()
    }
}

/// The attributes that the elements `s` declare. The values of elements with
/// the same `Name` are put together in order; an element without one is passed
/// over.
pub open spec fn attributes_from(t: dsig::Tree, s: Seq<int>) -> Map<Seq<char>, Seq<Seq<char>>>
    decreases s.len(),
{
    if s.len() == 0 {
        Map::empty()
    } else {
        let earlier = attributes_from(t, s.drop_last());
        match document::attribute_of(t, s.last(), "Name"@) {
            None => earlier,
            Some(name) => earlier.insert(
                name,
                values_under(earlier, name) + values_of(t, s.last()),
            ),
        }
    }
}

/// What is read from an assertion whose signature has been verified.
pub open spec fn assertion_result(t: dsig::Tree, assertion: int, terms: TermsView) -> Result<
    AssertionView,
    Seq<char>,
> {
    let issuer = issuer_of(t, assertion);
    match issuer_verdict(issuer, terms.issuer) {
        Err(e) => Err(e),
        Ok(_) => match conditions_verdict(t, assertion, terms) {
            Err(e) => Err(e),
            Ok(_) => match subject_of(t, assertion) {
                None => Err("Assertion has no Subject/NameID"@),
                Some(subject) => Ok(
                    AssertionView {
                        subject,
                        issuer,
                        attributes: attributes_from(t, attribute_elements_of(t, assertion)),
                    },
                ),
            },
        },
    }
}

/// Whether a signature holds neither a subject nor an attribute statement.
pub open spec fn holds_nothing_read(t: dsig::Tree, signature: int) -> bool {
    &&& document::descendants_named(t, signature, "Subject"@, None).len() == 0
    &&& document::descendants_named(t, signature, "AttributeStatement"@, None).len() == 0
}

/// What follows from the ids that the signature of an assertion covers: they
/// must list the `ID` of the assertion itself, and it must be the assertion that
/// this id names, not another element that bears it too. The signature itself,
/// which it does not cover, must hold nothing that would be read.
pub open spec fn covered_result(
    t: dsig::Tree,
    assertion: int,
    signature: int,
    id: Seq<char>,
    covered: Result<Seq<Seq<char>>, Seq<char>>,
    terms: TermsView,
) -> Result<AssertionView, Seq<char>> {
    match covered {
        Err(e) => Err(e),
        Ok(list) => if list.contains(id) && document::element_with_attribute(t, "ID"@, id) == Some(
            assertion,
        ) && holds_nothing_read(t, signature) {
            assertion_result(t, assertion, terms)
        } else {
            Err("signature does not cover the Assertion (#"@ + id + ")"@)
        },
    }
}

/// The assertions of a document.
pub open spec fn assertions_of(t: dsig::Tree) -> Seq<int> {
    document::elements_named(t, "Assertion"@, Some(SAML@))
}

/// The result of validating a document that holds a SAML assertion (or a
/// response around exactly one) under `key` and `terms`, where `canon` gives the
/// canonical octets.
pub open spec fn validation(
    t: dsig::Tree,
    key: crypto::KeyView,
    terms: TermsView,
    canon: dsig::Canon,
) -> Result<AssertionView, Seq<char>> {
    let assertions = assertions_of(t);
    if t.len() == 0 {
        Err("empty document"@)
    } else if assertions.len() == 0 {
        Err("no SAML Assertion"@)
    } else if assertions.len() > 1 {
        Err("multiple Assertions (signature-wrapping defense)"@)
    } else {
        match document::attribute_of(t, assertions[0], "ID"@) {
            None => Err("Assertion has no ID"@),
            Some(id) => match document::child_named(
                t,
                assertions[0],
                "Signature"@,
                Some(dsig::DS@),
            ) {
                None => Err("Assertion is not signed (no direct ds:Signature child)"@),
                Some(signature) => covered_result(
                    t,
                    assertions[0],
                    signature,
                    id,
                    dsig::verification(t, signature, key, canon),
                    terms,
                ),
            },
        }
    }
}

/// How many canonicalizations validation of a document asks for, where none of
/// the answers ends it early: those of the signature of its assertion.
pub open spec fn canonicalizations(t: dsig::Tree) -> nat {
    match document::child_named(t, assertions_of(t)[0], "Signature"@, Some(dsig::DS@)) {
        Some(signature) => dsig::canonicalizations(t, signature),
        None => 0,
    }
}

// ---------------------------------------------------------------------------
// Reading an assertion
// ---------------------------------------------------------------------------
/// The text content of each of `s`, without white space around it.
fn contents(doc: &Document, s: &Vec<usize>) -> (r: Vec<String>)
    ensures
        r.deep_view() == contents_of(doc@, document::ids(s@)),
{
    let mut r: Vec<String> = Vec::new();
    let ghost all = contents_of(doc@, document::ids(s@));
    let mut i: usize = 0;
    assert(all.take(0) =~= r.deep_view());
    while i < s.len()
        invariant
            i <= s.len(),
            all == contents_of(doc@, document::ids(s@)),
            r.deep_view() == all.take(i as int),
        decreases s.len() - i,
    {
        let content = doc.get_content(s[i]);
        let ghost before = r.deep_view();
        let piece = text::trim(content.as_str()).to_owned();
        let ghost word = piece@;
        r.push(piece);
        assert(r.deep_view() =~= before.push(word));
        assert(all.take(i + 1) =~= before.push(word));
        i = i + 1;
    }
    assert(all.take(i as int) =~= all);
    r
}

/// The trimmed text content of a node, where it is not blank.
fn content_unless_blank(doc: &Document, i: usize) -> (r: Option<String>)
    ensures
        text::text_of(r) == ({
            let name = text::trimmed(document::content_of(doc@, i as int));
            if name.len() > 0 {
                Some(name)
            } else {
                None
            }
        }),
{
    let content = doc.get_content(i);
    let name = text::trim(content.as_str());
    if name.is_empty() {
        None
    } else {
        Some(name.to_owned())
    }
}

/// The text of an issuer mismatch, given the `Debug` text of the issuer found.
pub fn issuer_mismatch(expected: &str, found: Option<&str>) -> (r: String)
    ensures
        r@ == "Issuer mismatch (expected "@ + expected@ + ", got "@ + shown(text::str_text(found))
            + ")"@,
{
    let mut r = text::joined3("Issuer mismatch (expected ", expected, ", got ");
    match found {
        None => {
            r.append("None");
        },
        Some(s) => {
            let part = text::joined3("Some(", s, ")");
            r.append(part.as_str());
        },
    }
    r.append(")");
    r
}

/// Holds the issuer of an assertion against the one that is expected, if any.
pub fn check_issuer(issuer: &Option<String>, expected: Option<&str>) -> (r: Result<(), String>)
    ensures
        crypto::unit_or_text(r) == issuer_verdict(text::text_of(*issuer), text::str_text(expected)),
{
    match expected {
        None => Ok(()),
        Some(name) => match issuer {
            Some(found) => if text::same(found.as_str(), name) {
                Ok(())
            } else {
                let quoted = text::debug(found.as_str());
                Err(issuer_mismatch(name, Some(quoted.as_str())))
            },
            None => Err(issuer_mismatch(name, None)),
        },
    }
}

/// Holds the validity window of an assertion against the time. An assertion is
/// a bearer credential, so one that declares no end is refused unless that is
/// allowed.
pub fn check_window(
    not_before: Option<Result<i128, String>>,
    not_on_or_after: Option<Result<i128, String>>,
    now: i128,
    clock_skew: i128,
    allow_unbounded_lifetime: bool,
) -> (r: Result<(), String>)
    ensures
        crypto::unit_or_text(r) == window_verdict(
            optional_instant(not_before),
            optional_instant(not_on_or_after),
            now as int,
            clock_skew as int,
            allow_unbounded_lifetime,
        ),
{
    match not_before {
        Some(Err(e)) => {
            return Err(e);
        },
        Some(Ok(nb)) => {
            if instant::sum_before(now, clock_skew, nb) {
                return Err("Assertion not yet valid (Conditions/NotBefore)".to_owned());
            }
        },
        None => {},
    }
    match not_on_or_after {
        Some(Err(e)) => Err(e),
        Some(Ok(na)) => if !instant::difference_before(now, clock_skew, na) {
            Err("Assertion expired (Conditions/NotOnOrAfter)".to_owned())
        } else {
            Ok(())
        },
        None => if allow_unbounded_lifetime {
            Ok(())
        } else {
            Err(
                "Assertion declares no Conditions/NotOnOrAfter; refusing a credential that never expires (set allow_unbounded_assertion_lifetime to accept it)".to_owned(),
            )
        },
    }
}

/// What reading an optional instant gave.
pub open spec fn optional_instant(r: Option<Result<i128, String>>) -> Option<
    Result<i128, Seq<char>>,
> {
    match r {
        None => None,
        Some(x) => Some(instant::instant_or_text(x)),
    }
}

/// What reading an attribute as an instant gives, where the attribute is there.
fn read_instant(doc: &Document, i: usize, name: &str) -> (r: Option<Result<i128, String>>)
    ensures
        optional_instant(r) == instant_attribute(doc@, i as int, name@),
{
    match doc.get_attribute(i, name) {
        None => None,
        Some(s) => Some(instant::parse_instant(s.as_str())),
    }
}

/// Holds the audiences that an assertion lists against the one that is required,
/// if any. An assertion that lists none was not issued for this service.
pub fn check_audience(audiences: &Vec<String>, expected: Option<&str>) -> (r: Result<(), String>)
    ensures
        crypto::unit_or_text(r) == audience_verdict(
            audiences.deep_view(),
            text::str_text(expected),
        ),
{
    match expected {
        None => Ok(()),
        Some(name) => if text::contains(audiences, name) {
            Ok(())
        } else {
            Err(
                text::joined(
                    "audience restriction does not include the required audience ",
                    name,
                ),
            )
        },
    }
}

/// Checks the conditions of an assertion.
fn check_conditions(doc: &Document, assertion: usize, terms: &Terms) -> (r: Result<(), String>)
    ensures
        crypto::unit_or_text(r) == conditions_verdict(doc@, assertion as int, terms@),
{
    match doc.child(assertion, "Conditions", Some(SAML)) {
        Some(c) => match check_window(
            read_instant(doc, c, "NotBefore"),
            read_instant(doc, c, "NotOnOrAfter"),
            terms.now,
            terms.clock_skew,
            terms.allow_unbounded_lifetime,
        ) {
            Err(e) => Err(e),
            Ok(_) => {
                let restrictions = doc.descendants(c, "AudienceRestriction", None);
                let listed = doc.children(&restrictions, "Audience", None);
                check_audience(&contents(doc, &listed), terms.audience)
            },
        },
        None => if terms.audience.is_some() {
            Err("Assertion has no Conditions but an audience is required".to_owned())
        } else if !terms.allow_unbounded_lifetime {
            Err(
                "Assertion carries no Conditions at all, so it declares no validity window; refusing a credential that never expires (set allow_unbounded_assertion_lifetime to accept it)".to_owned(),
            )
        } else {
            Ok(())
        },
    }
}

/// The attributes of an assertion.
fn read_attributes(doc: &Document, assertion: usize) -> (r: Attributes)
    ensures
        r@ == attributes_from(doc@, attribute_elements_of(doc@, assertion as int)),
{
    let statements = doc.descendants(assertion, "AttributeStatement", None);
    let elements = doc.children(&statements, "Attribute", None);
    let ghost all = document::ids(elements@);
    let mut r: Attributes = StringMap::new();
    let mut i: usize = 0;
    while i < elements.len()
        invariant
            i <= elements.len(),
            all == document::ids(elements@),
            r@ == attributes_from(doc@, all.take(i as int)),
        decreases elements.len() - i,
    {
        let ghost next = all.take(i + 1);
        assert(next.drop_last() =~= all.take(i as int));
        match doc.get_attribute(elements[i], "Name") {
            None => {},
            Some(name) => {
                let parents = vec![elements[i]];
                assert(document::ids(parents@) =~= seq![elements@[i as int] as int]);
                let values = doc.children(&parents, "AttributeValue", None);
                r.extend(name, contents(doc, &values));
            },
        }
        i = i + 1;
    }
    assert(all.take(i as int) =~= all);
    r
}

/// Reads an assertion whose signature has been verified.
fn read_assertion(doc: &Document, assertion: usize, terms: &Terms) -> (r: Result<
    VerifiedAssertion,
    String,
>)
    ensures
        assertion_or_text(r) == assertion_result(doc@, assertion as int, terms@),
{
    let issuer = match doc.child(assertion, "Issuer", Some(SAML)) {
        Some(i) => content_unless_blank(doc, i),
        None => None,
    };
    match check_issuer(&issuer, terms.issuer) {
        Ok(_) => {},
        Err(e) => return Err(e),
    }
    match check_conditions(doc, assertion, terms) {
        Ok(_) => {},
        Err(e) => return Err(e),
    }
    let subjects = doc.descendants(assertion, "Subject", None);
    let names = doc.children(&subjects, "NameID", None);
    let subject = if names.len() > 0 {
        content_unless_blank(doc, names[0])
    } else {
        None
    };
    match subject {
        None => Err("Assertion has no Subject/NameID".to_owned()),
        Some(subject) => Ok(
            VerifiedAssertion { subject, issuer, attributes: read_attributes(doc, assertion) },
        ),
    }
}

// ---------------------------------------------------------------------------
// Validation
// ---------------------------------------------------------------------------
/// Where validation stands: it waits for canonical octets, or it is done.
pub enum ValidateStep<'a> {
    Canonicalize(Validation<'a>),
    Done(Result<VerifiedAssertion, String>),
}

/// A validation that waits for canonical octets.
pub struct Validation<'a> {
    doc: &'a Document,
    assertion: usize,
    signature: usize,
    id: String,
    terms: Terms<'a>,
    verifier: Verifier<'a>,
}

impl<'a> Validation<'a> {
    /// The canonicalization that is asked for.
    pub closed spec fn requested(self) -> c14n::RequestView {
        self.verifier.requested()
    }

    /// How many canonicalizations are still needed.
    pub closed spec fn remaining(self) -> nat {
        self.verifier.remaining()
    }

    /// The result that this validation comes to, where `canon` gives the
    /// canonical octets.
    pub closed spec fn outcome(self, canon: dsig::Canon) -> Result<AssertionView, Seq<char>> {
        covered_result(
            self.doc@,
            self.assertion as int,
            self.signature as int,
            self.id@,
            self.verifier.outcome(canon),
            self.terms@,
        )
    }

    /// The canonicalization that is asked for.
    pub fn request(&self) -> (r: &CanonRequest)
        ensures
            r@ == self.requested(),
    {
        self.verifier.request()
    }
}

impl<'a> ValidateStep<'a> {
    /// The result that this step comes to, where `canon` gives the canonical
    /// octets.
    pub open spec fn outcome(self, canon: dsig::Canon) -> Result<AssertionView, Seq<char>> {
        match self {
            ValidateStep::Canonicalize(v) => v.outcome(canon),
            ValidateStep::Done(r) => assertion_or_text(r),
        }
    }
}

/// Judges the ids that the signature of an assertion covers, and reads the
/// assertion where they list its own, that names no other element, and the
/// signature holds nothing that would be read.
fn judge_covered(
    doc: &Document,
    assertion: usize,
    signature: usize,
    id: &str,
    covered: Result<Vec<String>, String>,
    terms: &Terms,
) -> (r: Result<VerifiedAssertion, String>)
    ensures
        assertion_or_text(r) == covered_result(
            doc@,
            assertion as int,
            signature as int,
            id@,
            dsig::strings_or_text(covered),
            terms@,
        ),
{
    match covered {
        Err(e) => Err(e),
        Ok(list) => {
            let named = match doc.find_by_attribute("ID", id) {
                Some(i) => i == assertion,
                None => false,
            };
            let subjects = doc.descendants(signature, "Subject", None);
            let statements = doc.descendants(signature, "AttributeStatement", None);
            let holds_nothing = subjects.len() == 0 && statements.len() == 0;
            if named && holds_nothing && text::contains(&list, id) {
                read_assertion(doc, assertion, terms)
            } else {
                Err(text::joined3("signature does not cover the Assertion (#", id, ")"))
            }
        },
    }
}

/// Goes on from where the verification of the signature stands.
fn proceed<'a>(
    doc: &'a Document,
    assertion: usize,
    signature: usize,
    id: String,
    terms: Terms<'a>,
    verified: VerifyStep<'a>,
) -> (step: ValidateStep<'a>)
    ensures
        forall|canon: dsig::Canon| #[trigger]
            step.outcome(canon) == covered_result(
                doc@,
                assertion as int,
                signature as int,
                id@,
                verified.outcome(canon),
                terms@,
            ),
        match step {
            ValidateStep::Canonicalize(v) => verified matches VerifyStep::Canonicalize(w)
                && v.remaining() == w.remaining(),
            ValidateStep::Done(_) => true,
        },
{
    match verified {
        VerifyStep::Canonicalize(verifier) => ValidateStep::Canonicalize(
            Validation { doc, assertion, signature, id, terms, verifier },
        ),
        VerifyStep::Done(covered) => ValidateStep::Done(
            judge_covered(doc, assertion, signature, id.as_str(), covered, &terms),
        ),
    }
}

/// Begins to validate a SAML assertion (or a response around exactly one signed
/// assertion). `key` is the trust anchor that the operator configures.
pub fn validate<'a>(
    doc: &'a Document,
    key: &'a RsaKey,
    expected_issuer: Option<&'a str>,
    expected_audience: Option<&'a str>,
    now: i128,
    clock_skew: i128,
    allow_unbounded_lifetime: bool,
) -> (step: ValidateStep<'a>)
    ensures
        forall|canon: dsig::Canon| #[trigger]
            step.outcome(canon) == validation(
                doc@,
                key@,
                TermsView {
                    issuer: text::str_text(expected_issuer),
                    audience: text::str_text(expected_audience),
                    now: now as int,
                    clock_skew: clock_skew as int,
                    allow_unbounded_lifetime,
                },
                canon,
            ),
        step matches ValidateStep::Canonicalize(v) ==> v.remaining() == canonicalizations(doc@),
{
    if doc.root().is_none() {
        return ValidateStep::Done(Err("empty document".to_owned()));
    }
    // A second assertion, which nobody signed, is how signatures are wrapped.
    let assertions = doc.elements("Assertion", Some(SAML));
    if assertions.len() == 0 {
        return ValidateStep::Done(Err("no SAML Assertion".to_owned()));
    }
    if assertions.len() > 1 {
        return ValidateStep::Done(
            Err("multiple Assertions (signature-wrapping defense)".to_owned()),
        );
    }
    let assertion = assertions[0];
    assert(document::ids(assertions@)[0] == assertion as int);
    let id = match doc.get_attribute(assertion, "ID") {
        Some(id) => id,
        None => {
            return ValidateStep::Done(Err("Assertion has no ID".to_owned()));
        },
    };
    let signature = match doc.child(assertion, "Signature", Some(dsig::DS)) {
        Some(i) => i,
        None => {
            return ValidateStep::Done(
                Err("Assertion is not signed (no direct ds:Signature child)".to_owned()),
            );
        },
    };
    let terms = Terms {
        issuer: expected_issuer,
        audience: expected_audience,
        now,
        clock_skew,
        allow_unbounded_lifetime,
    };
    proceed(doc, assertion, signature, id, terms, dsig::verify(doc, signature, key))
}

impl<'a> Validation<'a> {
    /// Goes on with the reply to the request. Where the reply is what `canon`
    /// gives for the request, the result stays what it is under `canon`.
    pub fn resume(self, reply: Result<Vec<u8>, String>) -> (step: ValidateStep<'a>)
        ensures
            forall|canon: dsig::Canon|
                canon(self.requested()) == crypto::bytes_or_text(reply) ==> #[trigger] step.outcome(
                    canon,
                ) == self.outcome(canon),
            step matches ValidateStep::Canonicalize(v) ==> v.remaining() + 1 == self.remaining(),
    {
        let Validation { doc, assertion, signature, id, terms, verifier } = self;
        proceed(doc, assertion, signature, id, terms, verifier.resume(reply))
    }
}

} // verus!
