use saml_identity::c14n::{is_visible, CanonRequest, Visited};
use saml_identity::config::{ConfigFields, ResolutionFields};
use saml_identity::crypto::RsaKey;
use saml_identity::document::{Attribute, Document};
use saml_identity::dsig::{
    conclude, digest, judge_digest, rsa_pubkey_from_cert_pem, safe_id, verify, VerifyStep, C14N_EXC, DS,
    ENVELOPED, RSA_SHA1, RSA_SHA256, SHA1_URI, SHA256_URI,
};
use saml_identity::instant::parse_instant;
use saml_identity::plugin::{
    judge_decoded, outcome_label, IdentityResolution, Intake, Outcome, PluginIdentity, ResolveStep,
};
use saml_identity::saml::{
    check_audience, check_issuer, check_window, validate, ValidateStep, VerifiedAssertion, SAML,
};
use saml_identity::string_map::StringMap;
use saml_identity::SamlIdentityPlugin;

/// The canonical octets of the signed info.
const SIGNED_INFO: &[u8] = b"<ds:SignedInfo>canonical</ds:SignedInfo>";

/// The canonical octets of the assertion.
const ASSERTION: &[u8] = b"<saml:Assertion>canonical</saml:Assertion>";

/// A self-signed RSA certificate.
const CERTIFICATE: &str = "\
-----BEGIN CERTIFICATE-----\n\
MIICrjCCAZagAwIBAgICEmcwDQYJKoZIhvcNAQELBQAwGjEYMBYGA1UEAwwPaWRw\n\
LmV4YW1wbGUuY29tMB4XDTIwMDEwMTAwMDAwMFoXDTQ1MDEwMTAwMDAwMFowGjEY\n\
MBYGA1UEAwwPaWRwLmV4YW1wbGUuY29tMIIBIjANBgkqhkiG9w0BAQEFAAOCAQ8A\n\
MIIBCgKCAQEAoDJwpGhCHyXuF75XEvVPAnlt6zaTn5XJF/wyzP1XdCXCzmH3rHhz\n\
m3fXLYYVMxXyVISooGe/n+hG1jeGAFalIYez1gHqLwoZmrQ9530zEuY8LBnqf2vw\n\
fDkCjIzom3H15kEtlSH7bZfoAyKTo/EVezodrUCU8SKQWw6ExLX8/N3ilNfuAaak\n\
A3lNq05O18ZAwMbsWtrQmWj0nRrGzckG8nlpTtM3xFpALVcI7vGKpzoAhwjlrrjM\n\
CI3F6LwxQG1Hg4x/E3YYXXqfDihwUh+dNEbHW/kIZIifJ2qQxO4Vv0lGPTMj5+tg\n\
Q5APNfpZ7eFvVjgqbCl0BMQN4yeejfXKNQIDAQABMA0GCSqGSIb3DQEBCwUAA4IB\n\
AQB2Mf4sEUj8UErTB0dvnNH/95qoqMvzPK/vP4rGbd7VkI8DCD7146XHx3ZRsiKs\n\
hqMdbRasPncncIWUT9TFzKA+lUOklR9P91EmKdqL6G8phm291Y8OLW2aAkzctBCA\n\
3imLmJhWbEQwz+cSS5NaINLD6FjUXWNpuLxEbmiYmRLADg0DVI7/fhvt/27WmrjB\n\
vsDRAkEF//IQ9mhh/tWY8p85g/CNfYCKaVmlyz6SRm5xS24WuKRzzwtqEeWiDwRf\n\
nPAXybmay+ZfxlB2VNM/DqcXGBE29MZdi15es/ltr8BX2VrtT1i+2iSMEn1oxz/V\n\
7YGZmMiPlsq9VsM5DpI42Axp\n\
-----END CERTIFICATE-----\n\
";

/// A self-signed certificate of another RSA key.
const OTHER_CERTIFICATE: &str = "\
-----BEGIN CERTIFICATE-----\n\
MIICsjCCAZqgAwIBAgICEmcwDQYJKoZIhvcNAQELBQAwHDEaMBgGA1UEAwwRb3Ro\n\
ZXIuZXhhbXBsZS5jb20wHhcNMjAwMTAxMDAwMDAwWhcNNDUwMTAxMDAwMDAwWjAc\n\
MRowGAYDVQQDDBFvdGhlci5leGFtcGxlLmNvbTCCASIwDQYJKoZIhvcNAQEBBQAD\n\
ggEPADCCAQoCggEBAOshs65qBXFTpgMSq6oK55NPozN2lBv4FFpHDcQG13PdQAZ0\n\
2HRn5+OJ6YMFxontsR7mWGYEFFYp5bkiC/RWlGdONqMQKIRqCH+c96meZG/9kgUz\n\
juv888Au+Azc5VNCGQmyj/PROkb/9r7vNKTMM0Vn0JkYomGCZrPXPVVcs2UKW0nb\n\
KWYT5iYl/LhwJOiMbS9RKXe1g0sZh3T7BzLLS8uTxopt9jg5YZtAhAbvN9PqHoQ0\n\
PItA6yiAz9sklhBWQUIJgH2g/y2bg9vBC08j1mi7wf+NWcF7aTTaFgkhgaLVbnt5\n\
D2OYGc1MS/zLs85zuc+gwZrZ7O1CQ/qcXYZjH+cCAwEAATANBgkqhkiG9w0BAQsF\n\
AAOCAQEAZ0rF3b4tudpxB1n50fHfqiWDZpuKKkzoJ418bJ6GiLnv9D6+1bYQcfEn\n\
cw2xIkcns4re4cRk/0gWaulrUhnkBquil3PhZKOjFdvRNS65jQkBkOorg75yOUPe\n\
7OEjHu7MSdiVUB75VY6PouWc1Oh0LQ6F0bRPhF77te/Cm2Qtx3KAXQsrJ9koB+zE\n\
4tWLsYJka7TxZz9TNSITOssSN++/lCRfOdc4Na8kvDIt6KkGXzWSC6vMN5iDpO/V\n\
rKuc6YCEhmFvdaJn38CtwBc+TEpUPjGCSrKBDl8qDN5uhQl3m9e/lc1kiGfuSQVZ\n\
KDRuWTuKGAXfHE04NkQixQZoT4vsLA==\n\
-----END CERTIFICATE-----\n\
";

/// The RSA-SHA256 signature over [`SIGNED_INFO`] under the key of [`CERTIFICATE`].
const SIGNATURE_SHA256: &str = "\
S3+capttgCWpi2o8ypCj4SwHUmMwXKCyQS0TrVT6VJi8nwQGXefwZ6K82tkjL+uDZNKnrkZxJ4lh\n\
j0Zr+i9D3IK3wN7cVNgibcsYft31bJU/AmWeehrtjKOJO9DCbGXlBnHJ8y3tuPOqKBiyZZA3NqtK\n\
pFwfV+o5q+4pRkjFCRDRZxXJL2ck6uTOjbTT7Q+awfZaNWlgfsIGiZtT2hHmBpBEE7rV31jFVKZ6\n\
wY9gu8KLuip46G1uieQxii/njBxHZwPulnd8ZdH1nWPvRH2grZ6MCru3sJW4SZQ4+4v6lFO2TyrF\n\
I0fgIaMBw9OXy7JO6HMfO9Z0UP3+W5sKltH4Ag==\n\
";

/// The RSA-SHA1 signature over [`SIGNED_INFO`] under the key of [`CERTIFICATE`].
const SIGNATURE_SHA1: &str = "\
EFJMqcMB/YHTfnnBIdyxwPnPta1hoIW8MdWUoI48TZmbkxolHS4XTuvtxRyJdsbP6Z9RIwW7J3FM\n\
OoEhmJmDw+9lbpW2fCWaJFNSVKVuiicNAG/zlsysix150zlvocV0wsojdIA9PC129HtX1/FVcFrG\n\
wu5SrJ2GXDFDNWocFTFOZEuJnqO7w2G0G1zYMLRiZmxNmwBkj+WMGkinyNSR1ohNwugo3B5O8TaQ\n\
IR0i2lMHandWKmtpwLLTQc5Pw0zu4nrDFlH2Ns5RMWA1RjLhJ/l3zvDjx6UtEqAElq9e5ED2atVa\n\
ELAI5QX7uVO2AWhee4VIKQMOLBvfXB78VhVqMQ==\n\
";

/// The SHA-256 digest of [`ASSERTION`].
const DIGEST_SHA256: &str = "xzKZBuzHxQrX1glMoIwAJ/l4IO2ZuMJFkW+CBxBUBRo=";

/// The SHA-1 digest of [`ASSERTION`].
const DIGEST_SHA1: &str = "msyGfd2vOxa3Eu9wcLlGRrThT9U=";

/// What a test document says; each test changes what it is about.
struct Parts {
    id: Option<&'static str>,
    issuer: &'static str,
    signed: bool,
    signed_info: bool,
    c14n: Option<&'static str>,
    method: Option<&'static str>,
    references: usize,
    uri: &'static str,
    transforms: Vec<&'static str>,
    digest_method: Option<&'static str>,
    digest_value: Option<&'static str>,
    value: Option<&'static str>,
    name_id: Option<&'static str>,
    conditions: bool,
    not_before: Option<&'static str>,
    not_on_or_after: Option<&'static str>,
    audience: Option<&'static str>,
    second: bool,
    outside: &'static str,
    /// The `ID` of an element before the assertion.
    shadow: Option<&'static str>,
    /// The namespace of the `ID` of the assertion.
    id_namespace: &'static str,
    /// An audience under a proxy restriction.
    proxy: Option<&'static str>,
    /// A certificate that the signature carries.
    embedded: &'static str,
    /// A name identifier in an object of the signature.
    object_subject: Option<&'static str>,
    /// A role in the key info of the signature.
    key_info_role: Option<&'static str>,
}

fn parts() -> Parts {
    Parts {
        id: Some("_a1"),
        issuer: " https://idp.example.com ",
        signed: true,
        signed_info: true,
        c14n: Some(C14N_EXC),
        method: Some(RSA_SHA256),
        references: 1,
        uri: "#_a1",
        transforms: vec![ENVELOPED, C14N_EXC],
        digest_method: Some(SHA256_URI),
        digest_value: Some(DIGEST_SHA256),
        value: Some(SIGNATURE_SHA256),
        name_id: Some("\n alice@example.com\n"),
        conditions: true,
        not_before: Some("2024-01-01T00:00:00Z"),
        not_on_or_after: Some("2024-01-01T01:00:00Z"),
        audience: Some(" gateway "),
        second: false,
        outside: "",
        shadow: None,
        id_namespace: "",
        proxy: None,
        embedded: "",
        object_subject: None,
        key_info_role: None,
    }
}

fn attribute(name: &str, value: &str) -> Attribute {
    Attribute { name: name.to_owned(), namespace: "".to_owned(), value: value.to_owned() }
}

fn element(doc: &mut Document, parent: usize, ns: &str, name: &str, attributes: Vec<Attribute>) -> usize {
    doc.add_element(Some(parent), name.to_owned(), ns.to_owned(), attributes)
        .unwrap()
}

fn content(doc: &mut Document, parent: usize, ns: &str, name: &str, text: &str) {
    let i = element(doc, parent, ns, name, Vec::new());
    doc.add_text(i, text.to_owned()).unwrap();
}

fn method(doc: &mut Document, parent: usize, name: &str, algorithm: Option<&'static str>, prefixes: &str) {
    if let Some(a) = algorithm {
        let i = element(doc, parent, DS, name, vec![attribute("Algorithm", a)]);
        if !prefixes.is_empty() {
            element(doc, i, C14N_EXC, "InclusiveNamespaces", vec![attribute("PrefixList", prefixes)]);
        }
    }
}

/// The document, its assertion, its signature and its signed info.
fn build(p: &Parts) -> (Document, usize, usize, usize) {
    let mut doc = Document::new();
    let d = &mut doc;
    let root = d
        .add_element(None, "Response".to_owned(), "urn:oasis:names:tc:SAML:2.0:protocol".to_owned(), Vec::new())
        .unwrap();
    let status = element(d, root, "urn:oasis:names:tc:SAML:2.0:protocol", "Status", match p.shadow {
        Some(id) => vec![attribute("ID", id)],
        None => Vec::new(),
    });
    content(d, status, SAML, "NameID", p.outside);
    let ids = match p.id {
        Some(id) => vec![Attribute {
            name: "ID".to_owned(),
            namespace: p.id_namespace.to_owned(),
            value: id.to_owned(),
        }],
        None => Vec::new(),
    };
    let assertion = element(d, root, SAML, "Assertion", ids);
    content(d, assertion, SAML, "Issuer", p.issuer);
    let mut signature = 0;
    let mut signed_info = 0;
    if p.signed {
        signature = element(d, assertion, DS, "Signature", Vec::new());
        if p.signed_info {
            signed_info = element(d, signature, DS, "SignedInfo", Vec::new());
            method(d, signed_info, "CanonicalizationMethod", p.c14n, "xs xsi");
            method(d, signed_info, "SignatureMethod", p.method, "");
            for _ in 0..p.references {
                let reference = element(d, signed_info, DS, "Reference", vec![attribute("URI", p.uri)]);
                let transforms = element(d, reference, DS, "Transforms", Vec::new());
                for t in &p.transforms {
                    method(d, transforms, "Transform", Some(*t), "xs");
                }
                method(d, reference, "DigestMethod", p.digest_method, "");
                if let Some(v) = p.digest_value {
                    content(d, reference, DS, "DigestValue", v);
                }
            }
        }
        if let Some(v) = p.value {
            content(d, signature, DS, "SignatureValue", v);
        }
        let key_info = element(d, signature, DS, "KeyInfo", Vec::new());
        let data = element(d, key_info, DS, "X509Data", Vec::new());
        content(d, data, DS, "X509Certificate", p.embedded);
        if let Some(role) = p.key_info_role {
            let statement = element(d, key_info, SAML, "AttributeStatement", Vec::new());
            let a = element(d, statement, SAML, "Attribute", vec![attribute("Name", "role")]);
            content(d, a, SAML, "AttributeValue", role);
        }
        let object = element(d, signature, DS, "Object", Vec::new());
        if let Some(name) = p.object_subject {
            let subject = element(d, object, "", "Subject", Vec::new());
            content(d, subject, "", "NameID", name);
        }
    }
    if let Some(name) = p.name_id {
        let subject = element(d, assertion, SAML, "Subject", Vec::new());
        content(d, subject, SAML, "NameID", name);
    }
    if p.conditions {
        let mut ends = Vec::new();
        if let Some(s) = p.not_before {
            ends.push(attribute("NotBefore", s));
        }
        if let Some(s) = p.not_on_or_after {
            ends.push(attribute("NotOnOrAfter", s));
        }
        let conditions = element(d, assertion, SAML, "Conditions", ends);
        if let Some(a) = p.audience {
            let restriction = element(d, conditions, SAML, "AudienceRestriction", Vec::new());
            content(d, restriction, SAML, "Audience", "someone else");
            content(d, restriction, SAML, "Audience", a);
        }
        if let Some(a) = p.proxy {
            let restriction = element(d, conditions, SAML, "ProxyRestriction", Vec::new());
            content(d, restriction, SAML, "Audience", a);
        }
    }
    let statement = element(d, assertion, SAML, "AttributeStatement", Vec::new());
    for (name, values) in [("role", vec![" admin ", "user"]), ("mail", vec!["a@x"]), ("empty", vec![]), ("role", vec!["auditor"])] {
        let a = element(d, statement, SAML, "Attribute", vec![attribute("Name", name)]);
        for v in values {
            content(d, a, SAML, "AttributeValue", v);
        }
    }
    let nameless = element(d, statement, SAML, "Attribute", Vec::new());
    content(d, nameless, SAML, "AttributeValue", "lost");
    if p.second {
        let forged = element(d, root, SAML, "Assertion", vec![attribute("ID", "_forged")]);
        let subject = element(d, forged, SAML, "Subject", Vec::new());
        content(d, subject, SAML, "NameID", "mallory");
    }
    (doc, assertion, signature, signed_info)
}

fn key_of(pem: &str) -> RsaKey {
    rsa_pubkey_from_cert_pem(pem).ok().unwrap()
}

/// The octets of the two elements that are signed.
fn octets(assertion: usize, signed_info: usize, request: &CanonRequest) -> Result<Vec<u8>, String> {
    if request.target == assertion {
        Ok(ASSERTION.to_vec())
    } else if request.target == signed_info {
        Ok(SIGNED_INFO.to_vec())
    } else {
        Err("no octets".to_owned())
    }
}

fn verified(p: &Parts, pem: &str) -> Result<Vec<String>, String> {
    let (doc, assertion, signature, signed_info) = build(p);
    let key = key_of(pem);
    let mut step = verify(&doc, signature, &key);
    loop {
        match step {
            VerifyStep::Done(r) => return r,
            VerifyStep::Canonicalize(v) => {
                let reply = octets(assertion, signed_info, v.request());
                step = v.resume(reply);
            }
        }
    }
}

fn error(p: Parts) -> String {
    verified(&p, CERTIFICATE).unwrap_err()
}

/// What is demanded in a test, at an instant.
struct Demands {
    issuer: Option<&'static str>,
    audience: Option<&'static str>,
    now: &'static str,
    skew: i128,
    unbounded: bool,
}

fn demands() -> Demands {
    Demands {
        issuer: Some("https://idp.example.com"),
        audience: Some("gateway"),
        now: "2024-01-01T00:30:00Z",
        skew: 0,
        unbounded: false,
    }
}

fn validated(p: &Parts, demanded: &Demands) -> Result<VerifiedAssertion, String> {
    let (doc, assertion, _, signed_info) = build(p);
    let key = key_of(CERTIFICATE);
    let now = parse_instant(demanded.now).unwrap();
    let mut step = validate(
        &doc,
        &key,
        demanded.issuer,
        demanded.audience,
        now,
        demanded.skew * 1_000_000_000,
        demanded.unbounded,
    );
    loop {
        match step {
            ValidateStep::Done(r) => return r,
            ValidateStep::Canonicalize(v) => {
                let reply = octets(assertion, signed_info, v.request());
                step = v.resume(reply);
            }
        }
    }
}

fn refusal(p: &Parts, demanded: &Demands) -> String {
    validated(p, demanded).err().unwrap()
}

fn fields(pem: &str) -> ConfigFields {
    ConfigFields {
        idp_certificate: pem.to_owned(),
        idp_entity_id: Some("https://idp.example.com".to_owned()),
        audience: Some("gateway".to_owned()),
        allow_unbounded_assertion_lifetime: None,
        assertion_header: None,
        assertion_scheme: None,
        role_attribute: None,
        group_attribute: Some("mail".to_owned()),
        clock_skew_secs: None,
        resolution: None,
    }
}

fn plugin(f: ConfigFields) -> SamlIdentityPlugin {
    SamlIdentityPlugin::from_config_json(Ok(f), "0.1.0", "saml_identity")
        .ok()
        .unwrap()
}

fn resolved(p: &Parts, f: ConfigFields, now: &str) -> Outcome {
    let (doc, assertion, _, signed_info) = build(p);
    let parsed = Ok(doc);
    let plugin = plugin(f);
    let mut step = plugin.resolve_document(&parsed, parse_instant(now).unwrap());
    loop {
        match step {
            ResolveStep::Done(o) => return o,
            ResolveStep::Canonicalize(r) => {
                let reply = octets(assertion, signed_info, r.request());
                step = r.resume(reply);
            }
        }
    }
}

fn identity(o: Outcome) -> PluginIdentity {
    match o.resolution {
        IdentityResolution::Resolved { identity } => identity,
        _ => panic!("not resolved: {:?}", o.detail),
    }
}

fn reason(o: &Outcome) -> &str {
    match &o.resolution {
        IdentityResolution::Invalid { reason } => reason,
        _ => panic!("not refused"),
    }
}

fn header(name: &str, value: &str) -> Vec<(String, String)> {
    vec![(name.to_owned(), value.to_owned())]
}

#[test]
fn a_signature_with_sha256_is_accepted() {
    assert_eq!(verified(&parts(), CERTIFICATE), Ok(vec!["_a1".to_owned()]));
}

#[test]
fn a_signature_with_sha1_is_accepted() {
    let mut p = parts();
    p.method = Some(RSA_SHA1);
    p.value = Some(SIGNATURE_SHA1);
    p.digest_method = Some(SHA1_URI);
    p.digest_value = Some(DIGEST_SHA1);
    assert_eq!(verified(&p, CERTIFICATE), Ok(vec!["_a1".to_owned()]));
}

#[test]
fn every_reference_is_covered_in_order() {
    let mut p = parts();
    p.references = 3;
    let ids = vec!["_a1".to_owned(), "_a1".to_owned(), "_a1".to_owned()];
    assert_eq!(verified(&p, CERTIFICATE), Ok(ids));
}

#[test]
fn the_requests_name_what_is_signed() {
    let (doc, assertion, signature, signed_info) = build(&parts());
    let key = key_of(CERTIFICATE);
    let first = match verify(&doc, signature, &key) {
        VerifyStep::Canonicalize(v) => v,
        VerifyStep::Done(_) => panic!("done"),
    };
    assert_eq!(first.request().target, assertion);
    assert_eq!(first.request().exclude, Some(signature));
    assert_eq!(first.request().prefixes, vec!["xs".to_owned()]);
    let second = match first.resume(Ok(ASSERTION.to_vec())) {
        VerifyStep::Canonicalize(v) => v,
        VerifyStep::Done(_) => panic!("done"),
    };
    assert_eq!(second.request().target, signed_info);
    assert_eq!(second.request().exclude, None);
    assert_eq!(second.request().prefixes, vec!["xs".to_owned(), "xsi".to_owned()]);
    assert!(matches!(second.resume(Ok(SIGNED_INFO.to_vec())), VerifyStep::Done(Ok(_))));
}

#[test]
fn a_canonicalizer_that_fails_fails_verification() {
    let (doc, _, signature, _) = build(&parts());
    let key = key_of(CERTIFICATE);
    if let VerifyStep::Canonicalize(v) = verify(&doc, signature, &key) {
        match v.resume(Err("xmlC14NExecute failed (rc=-1)".to_owned())) {
            VerifyStep::Done(r) => assert_eq!(r, Err("xmlC14NExecute failed (rc=-1)".to_owned())),
            VerifyStep::Canonicalize(_) => panic!("not done"),
        }
    } else {
        panic!("done");
    }
}

#[test]
fn tampering_is_refused() {
    let (doc, _, signature, _) = build(&parts());
    let key = key_of(CERTIFICATE);
    if let VerifyStep::Canonicalize(v) = verify(&doc, signature, &key) {
        match v.resume(Ok(b"<saml:Assertion>tampered</saml:Assertion>".to_vec())) {
            VerifyStep::Done(r) => assert_eq!(r, Err("digest mismatch for Reference #_a1".to_owned())),
            VerifyStep::Canonicalize(_) => panic!("not done"),
        }
    } else {
        panic!("done");
    }
}

#[test]
fn the_wrong_signing_key_is_refused() {
    let e = verified(&parts(), OTHER_CERTIFICATE).unwrap_err();
    assert_eq!(e, "signature verification failed: verification error");
    let mut p = parts();
    p.method = Some(RSA_SHA1);
    assert_eq!(error(p), "signature verification failed: verification error");
}

#[test]
fn unknown_algorithms_are_refused() {
    let mut p = parts();
    p.c14n = Some("http://www.w3.org/TR/2001/REC-xml-c14n-20010315");
    assert_eq!(
        error(p),
        "unsupported CanonicalizationMethod: http://www.w3.org/TR/2001/REC-xml-c14n-20010315"
    );
    let mut p = parts();
    p.method = Some("http://www.w3.org/2001/04/xmldsig-more#ecdsa-sha256");
    assert_eq!(
        error(p),
        "unsupported SignatureMethod: http://www.w3.org/2001/04/xmldsig-more#ecdsa-sha256"
    );
    let mut p = parts();
    p.transforms = vec![ENVELOPED, C14N_EXC, "http://www.w3.org/TR/1999/REC-xslt-19991116"];
    assert_eq!(error(p), "unsupported Transform: http://www.w3.org/TR/1999/REC-xslt-19991116");
    let mut p = parts();
    p.digest_method = Some("http://www.w3.org/2001/04/xmldsig-more#md5");
    assert_eq!(error(p), "unsupported DigestMethod: http://www.w3.org/2001/04/xmldsig-more#md5");
}

#[test]
fn missing_parts_of_a_signature_are_refused() {
    let mut p = parts();
    p.signed_info = false;
    assert_eq!(error(p), "missing element: ./ds:SignedInfo");
    let mut p = parts();
    p.c14n = None;
    assert_eq!(error(p), "missing element: ./ds:CanonicalizationMethod");
    let mut p = parts();
    p.method = None;
    assert_eq!(error(p), "missing element: ./ds:SignatureMethod");
    let mut p = parts();
    p.references = 0;
    assert_eq!(error(p), "SignedInfo has no Reference");
    let mut p = parts();
    p.transforms = vec![ENVELOPED];
    assert_eq!(error(p), "Reference is missing the exclusive-c14n transform");
    let mut p = parts();
    p.digest_method = None;
    assert_eq!(error(p), "missing element: ./ds:DigestMethod");
    let mut p = parts();
    p.digest_value = None;
    assert_eq!(error(p), "missing element: ./ds:DigestValue");
    let mut p = parts();
    p.value = None;
    assert_eq!(error(p), "missing element: ./ds:SignatureValue");
}

#[test]
fn references_are_refused_unless_they_name_an_element() {
    let mut p = parts();
    p.uri = "http://example.com/";
    assert_eq!(
        error(p),
        "only same-document Reference URIs are supported, got 'http://example.com/'"
    );
    let mut p = parts();
    p.uri = "#_a1'] | //*['";
    assert_eq!(error(p), "unsafe Reference id '_a1'] | //*[''");
    let mut p = parts();
    p.uri = "#_zz";
    assert_eq!(error(p), "Reference target #_zz not found");
}

#[test]
fn values_must_be_base64() {
    let mut p = parts();
    p.digest_value = Some("***");
    assert!(error(p).starts_with("DigestValue base64: Invalid symbol"));
    let mut p = parts();
    p.value = Some("***");
    assert!(error(p).starts_with("SignatureValue base64: Invalid symbol"));
}

#[test]
fn the_id_of_a_reference_is_safe() {
    assert_eq!(safe_id("#_a-1.b:C"), Ok("_a-1.b:C".to_owned()));
    assert_eq!(safe_id("#"), Err("unsafe Reference id ''".to_owned()));
    assert_eq!(safe_id("#a b"), Err("unsafe Reference id 'a b'".to_owned()));
    assert_eq!(safe_id("#\u{e9}"), Err("unsafe Reference id '\u{e9}'".to_owned()));
    assert_eq!(
        safe_id(""),
        Err("only same-document Reference URIs are supported, got ''".to_owned())
    );
}

#[test]
fn digests_are_those_of_the_methods() {
    let hex = |v: Vec<u8>| -> String { v.iter().map(|b| format!("{:02x}", b)).collect() };
    assert_eq!(
        hex(digest(SHA256_URI, b"abc").unwrap()),
        "ba7816bf8f01cfea414140de5dae2223b00361a396177a9cb410ff61f20015ad"
    );
    assert_eq!(
        hex(digest(SHA1_URI, b"abc").unwrap()),
        "a9993e364706816aba3e25717850c26c9cd0d89d"
    );
    assert_eq!(digest("urn:md5", b"abc"), Err("unsupported DigestMethod: urn:md5".to_owned()));
}

#[test]
fn outside_verdicts_are_judged() {
    let bytes: Vec<u8> = vec![1, 2, 3];
    assert_eq!(judge_digest("x", &bytes, Ok(vec![1, 2, 3])), Ok(()));
    assert_eq!(
        judge_digest("x", &bytes, Ok(vec![1, 2])),
        Err("digest mismatch for Reference #x".to_owned())
    );
    assert_eq!(
        judge_digest("x", &bytes, Err("bad".to_owned())),
        Err("DigestValue base64: bad".to_owned())
    );
    assert_eq!(conclude(Ok(()), vec!["x".to_owned()]), Ok(vec!["x".to_owned()]));
    assert_eq!(
        conclude(Err("bad".to_owned()), vec!["x".to_owned()]),
        Err("signature verification failed: bad".to_owned())
    );
}

#[test]
fn a_valid_assertion_is_read() {
    let a = validated(&parts(), &demands()).ok().unwrap();
    assert_eq!(a.subject, "alice@example.com");
    assert_eq!(a.issuer.as_deref(), Some("https://idp.example.com"));
    let roles = vec!["admin".to_owned(), "user".to_owned(), "auditor".to_owned()];
    assert_eq!(a.attributes.get("role"), Some(&roles));
    assert_eq!(a.attributes.get("mail"), Some(&vec!["a@x".to_owned()]));
    assert_eq!(a.attributes.get("empty"), Some(&Vec::new()));
    assert_eq!(a.attributes.entries().len(), 3);
}

#[test]
fn what_is_outside_the_assertion_is_not_read() {
    let mut p = parts();
    for outside in ["", "mallory", "bob"] {
        p.outside = outside;
        let a = validated(&p, &demands()).ok().unwrap();
        assert_eq!(a.subject, "alice@example.com");
        assert_eq!(a.attributes.entries().len(), 3);
    }
    p.name_id = None;
    p.outside = "mallory";
    assert_eq!(refusal(&p, &demands()), "Assertion has no Subject/NameID");
}

#[test]
fn signature_wrapping_is_refused() {
    let mut p = parts();
    p.second = true;
    assert_eq!(refusal(&p, &demands()), "multiple Assertions (signature-wrapping defense)");
    let mut p = parts();
    p.signed = false;
    assert_eq!(
        refusal(&p, &demands()),
        "Assertion is not signed (no direct ds:Signature child)"
    );
    let mut p = parts();
    p.id = None;
    assert_eq!(refusal(&p, &demands()), "Assertion has no ID");
}

/// A document whose signature covers another element than the assertion.
#[test]
fn a_signature_must_cover_the_assertion() {
    let mut doc = Document::new();
    let d = &mut doc;
    let root = d
        .add_element(None, "Response".to_owned(), "".to_owned(), vec![attribute("ID", "_r1")])
        .unwrap();
    let assertion = element(d, root, SAML, "Assertion", vec![attribute("ID", "_a1")]);
    let signature = element(d, assertion, DS, "Signature", Vec::new());
    let signed_info = element(d, signature, DS, "SignedInfo", Vec::new());
    method(d, signed_info, "CanonicalizationMethod", Some(C14N_EXC), "");
    method(d, signed_info, "SignatureMethod", Some(RSA_SHA256), "");
    let reference = element(d, signed_info, DS, "Reference", vec![attribute("URI", "#_r1")]);
    let transforms = element(d, reference, DS, "Transforms", Vec::new());
    method(d, transforms, "Transform", Some(C14N_EXC), "");
    method(d, reference, "DigestMethod", Some(SHA256_URI), "");
    content(d, reference, DS, "DigestValue", DIGEST_SHA256);
    content(d, signature, DS, "SignatureValue", SIGNATURE_SHA256);
    let key = key_of(CERTIFICATE);
    let mut step = validate(&doc, &key, None, None, 0, 0, true);
    let result = loop {
        match step {
            ValidateStep::Done(r) => break r,
            ValidateStep::Canonicalize(v) => {
                let reply = octets(root, signed_info, v.request());
                step = v.resume(reply);
            }
        }
    };
    assert_eq!(
        result.err(),
        Some("signature does not cover the Assertion (#_a1)".to_owned())
    );
}

/// An element before the assertion that bears its `ID` is what the reference
/// digests, and is signed; the assertion is not.
#[test]
fn a_signature_over_another_element_with_the_same_id_is_refused() {
    let mut p = parts();
    p.shadow = Some("_a1");
    let (doc, assertion, signature, signed_info) = build(&p);
    let shadow = doc.find_by_attribute("ID", "_a1").unwrap();
    assert!(shadow < assertion);
    let key = key_of(CERTIFICATE);
    let mut verification = verify(&doc, signature, &key);
    let covered = loop {
        match verification {
            VerifyStep::Done(r) => break r,
            VerifyStep::Canonicalize(v) => {
                let reply = octets(shadow, signed_info, v.request());
                verification = v.resume(reply);
            }
        }
    };
    assert_eq!(covered, Ok(vec!["_a1".to_owned()]));
    let mut step = validate(&doc, &key, None, None, 0, 0, true);
    let result = loop {
        match step {
            ValidateStep::Done(r) => break r,
            ValidateStep::Canonicalize(v) => {
                let reply = octets(shadow, signed_info, v.request());
                step = v.resume(reply);
            }
        }
    };
    assert_eq!(
        result.err(),
        Some("signature does not cover the Assertion (#_a1)".to_owned())
    );
    p.shadow = Some("_s1");
    assert!(validated(&p, &demands()).is_ok());
}

#[test]
fn an_id_in_a_namespace_is_not_the_id_that_is_signed() {
    let mut p = parts();
    p.id_namespace = "urn:other";
    assert_eq!(refusal(&p, &demands()), "Reference target #_a1 not found");
    p.shadow = Some("_a1");
    let (doc, _, _, signed_info) = build(&p);
    let shadow = doc.find_by_attribute("ID", "_a1").unwrap();
    let key = key_of(CERTIFICATE);
    let mut step = validate(&doc, &key, None, None, 0, 0, true);
    let result = loop {
        match step {
            ValidateStep::Done(r) => break r,
            ValidateStep::Canonicalize(v) => {
                let reply = octets(shadow, signed_info, v.request());
                step = v.resume(reply);
            }
        }
    };
    assert_eq!(
        result.err(),
        Some("signature does not cover the Assertion (#_a1)".to_owned())
    );
}

#[test]
fn contents_that_the_signature_does_not_protect_are_refused() {
    let text = "signature does not cover the Assertion (#_a1)";
    let mut p = parts();
    p.object_subject = Some("admin");
    assert_eq!(verified(&p, CERTIFICATE), Ok(vec!["_a1".to_owned()]));
    assert_eq!(refusal(&p, &demands()), text);
    p.object_subject = Some("");
    assert_eq!(refusal(&p, &demands()), text);
    let mut p = parts();
    p.key_info_role = Some("admin");
    assert_eq!(verified(&p, CERTIFICATE), Ok(vec!["_a1".to_owned()]));
    assert_eq!(refusal(&p, &demands()), text);
    let o = resolved(&p, fields(CERTIFICATE), "2024-01-01T00:30:00Z");
    assert_eq!(reason(&o), "invalid SAML assertion");
}

/// What is read of the assertion is visible to the canonicalizer when it makes the
/// octets that the reference digests.
#[test]
fn what_is_read_is_digested() {
    let (doc, assertion, signature, _) = build(&parts());
    let key = key_of(CERTIFICATE);
    let request = match verify(&doc, signature, &key) {
        VerifyStep::Canonicalize(v) => v,
        VerifyStep::Done(_) => panic!("done"),
    };
    let mut seen = 0;
    for name in ["Issuer", "Subject", "NameID", "Conditions", "Audience", "Attribute", "AttributeValue"] {
        for i in doc.descendants(assertion, name, None) {
            assert!(is_visible(&doc, request.request(), Visited::Element(i)));
            assert!(is_visible(&doc, request.request(), Visited::Other(Some(i))));
            seen += 1;
        }
    }
    assert_eq!(seen, 16);
    for i in doc.descendants(signature, "X509Certificate", None) {
        assert!(!is_visible(&doc, request.request(), Visited::Element(i)));
    }
}

#[test]
fn the_certificate_in_the_message_takes_no_part() {
    let mut p = parts();
    for embedded in ["", "not a cert", OTHER_CERTIFICATE] {
        p.embedded = embedded;
        assert_eq!(verified(&p, CERTIFICATE), Ok(vec!["_a1".to_owned()]));
        assert!(verified(&p, OTHER_CERTIFICATE).is_err());
    }
}

#[test]
fn a_document_without_an_assertion_is_refused() {
    let key = key_of(CERTIFICATE);
    let empty = Document::new();
    match validate(&empty, &key, None, None, 0, 0, true) {
        ValidateStep::Done(r) => assert_eq!(r.err(), Some("empty document".to_owned())),
        ValidateStep::Canonicalize(_) => panic!("not done"),
    }
    let mut doc = Document::new();
    doc.add_element(None, "Assertion".to_owned(), "urn:other".to_owned(), Vec::new());
    match validate(&doc, &key, None, None, 0, 0, true) {
        ValidateStep::Done(r) => assert_eq!(r.err(), Some("no SAML Assertion".to_owned())),
        ValidateStep::Canonicalize(_) => panic!("not done"),
    }
}

#[test]
fn the_issuer_must_be_the_expected_one() {
    let mut d = demands();
    d.issuer = Some("https://other");
    assert_eq!(
        refusal(&parts(), &d),
        "Issuer mismatch (expected https://other, got Some(\"https://idp.example.com\"))"
    );
    let mut p = parts();
    p.issuer = "  ";
    assert_eq!(
        refusal(&p, &demands()),
        "Issuer mismatch (expected https://idp.example.com, got None)"
    );
    d.issuer = None;
    assert_eq!(validated(&p, &d).ok().unwrap().issuer, None);
    assert_eq!(
        check_issuer(&Some("a\"b\n".to_owned()), Some("c")),
        Err("Issuer mismatch (expected c, got Some(\"a\\\"b\\n\"))".to_owned())
    );
}

#[test]
fn the_window_holds_the_time() {
    let mut d = demands();
    d.now = "2024-01-01T00:00:00Z";
    assert!(validated(&parts(), &d).is_ok());
    d.now = "2023-12-31T23:59:59Z";
    assert_eq!(refusal(&parts(), &d), "Assertion not yet valid (Conditions/NotBefore)");
    d.skew = 1;
    assert!(validated(&parts(), &d).is_ok());
    d.now = "2024-01-01T01:00:00Z";
    assert!(validated(&parts(), &d).is_ok());
    d.skew = 0;
    assert_eq!(refusal(&parts(), &d), "Assertion expired (Conditions/NotOnOrAfter)");
    d.now = "2034-01-01T01:00:00Z";
    assert_eq!(refusal(&parts(), &d), "Assertion expired (Conditions/NotOnOrAfter)");
    let mut p = parts();
    p.not_before = None;
    d.now = "2001-01-01T00:00:00Z";
    assert!(validated(&p, &d).is_ok());
    p.not_before = Some("soon");
    assert!(refusal(&p, &d).starts_with("bad dateTime 'soon': "));
    p = parts();
    p.not_on_or_after = Some("late");
    d.now = "2024-01-01T00:30:00Z";
    assert!(refusal(&p, &d).starts_with("bad dateTime 'late': "));
}

#[test]
fn the_ends_of_the_window_are_judged() {
    assert_eq!(check_window(Some(Ok(5)), Some(Ok(9)), 4, 1, false), Ok(()));
    assert_eq!(
        check_window(Some(Ok(6)), Some(Ok(9)), 4, 1, false),
        Err("Assertion not yet valid (Conditions/NotBefore)".to_owned())
    );
    assert_eq!(check_window(None, Some(Ok(9)), 9, 1, false), Ok(()));
    assert_eq!(
        check_window(None, Some(Ok(9)), 10, 1, false),
        Err("Assertion expired (Conditions/NotOnOrAfter)".to_owned())
    );
    assert_eq!(check_window(None, None, 0, 0, true), Ok(()));
    assert_eq!(check_window(Some(Ok(i128::MAX)), Some(Ok(i128::MIN + 3)), 1, i128::MAX, false), Ok(()));
    assert_eq!(
        check_window(None, Some(Ok(i128::MAX)), i128::MAX, -1, false),
        Err("Assertion expired (Conditions/NotOnOrAfter)".to_owned())
    );
    assert_eq!(
        check_window(Some(Ok(i128::MIN)), None, i128::MIN, -1, true),
        Err("Assertion not yet valid (Conditions/NotBefore)".to_owned())
    );
    assert_eq!(
        check_window(Some(Err("bad".to_owned())), None, 0, 0, true),
        Err("bad".to_owned())
    );
}

#[test]
fn an_assertion_that_never_expires_is_refused_unless_allowed() {
    let mut d = demands();
    let mut p = parts();
    p.not_on_or_after = None;
    assert_eq!(
        refusal(&p, &d),
        "Assertion declares no Conditions/NotOnOrAfter; refusing a credential that never expires \
         (set allow_unbounded_assertion_lifetime to accept it)"
    );
    d.unbounded = true;
    assert!(validated(&p, &d).is_ok());
    p.conditions = false;
    assert_eq!(
        refusal(&p, &d),
        "Assertion has no Conditions but an audience is required"
    );
    d.audience = None;
    assert!(validated(&p, &d).is_ok());
    d.unbounded = false;
    assert_eq!(
        refusal(&p, &d),
        "Assertion carries no Conditions at all, so it declares no validity window; refusing a \
         credential that never expires (set allow_unbounded_assertion_lifetime to accept it)"
    );
}

#[test]
fn the_audience_must_be_listed() {
    let mut d = demands();
    d.audience = Some("another");
    let text = "audience restriction does not include the required audience another";
    assert_eq!(refusal(&parts(), &d), text);
    let mut p = parts();
    p.audience = None;
    assert_eq!(refusal(&p, &d), text);
    p.audience = Some("gateway");
    p.proxy = Some("another");
    assert_eq!(refusal(&p, &d), text);
    d.audience = None;
    assert!(validated(&p, &d).is_ok());
    assert_eq!(check_audience(&vec!["a".to_owned(), "b".to_owned()], Some("b")), Ok(()));
    assert!(check_audience(&Vec::new(), Some("b")).is_err());
}

#[test]
fn a_subject_is_needed() {
    let mut p = parts();
    p.name_id = None;
    assert_eq!(refusal(&p, &demands()), "Assertion has no Subject/NameID");
    p.name_id = Some(" \n");
    assert_eq!(refusal(&p, &demands()), "Assertion has no Subject/NameID");
}

#[test]
fn an_identity_is_resolved() {
    let id = identity(resolved(&parts(), fields(CERTIFICATE), "2024-01-01T00:30:00Z"));
    assert_eq!(id.kind, "verified");
    assert_eq!(id.trust_level, "verified");
    assert_eq!(id.subject_id.as_deref(), Some("alice@example.com"));
    assert_eq!(id.auth_provider.as_deref(), Some("saml"));
    assert_eq!(id.issuer.as_deref(), Some("https://idp.example.com"));
    assert_eq!(id.roles, vec!["admin".to_owned(), "user".to_owned(), "auditor".to_owned()]);
    assert_eq!(id.groups, vec!["a@x".to_owned()]);
    assert!(id.scopes.is_empty());
    assert_eq!(id.attributes.get("role").map(|s| s.as_str()), Some("admin"));
    assert_eq!(id.attributes.get("mail").map(|s| s.as_str()), Some("a@x"));
    assert!(id.attributes.get("empty").is_none());
    assert_eq!(id.attributes.entries().len(), 2);
}

#[test]
fn an_identity_carries_the_configured_trust() {
    let mut f = fields(CERTIFICATE);
    f.group_attribute = None;
    f.role_attribute = Some("absent".to_owned());
    f.resolution = Some(ResolutionFields {
        trust_level: Some("header_asserted".to_owned()),
        auth_provider_label: Some("corp".to_owned()),
    });
    let id = identity(resolved(&parts(), f, "2024-01-01T00:30:00Z"));
    assert_eq!(id.trust_level, "header_asserted");
    assert_eq!(id.auth_provider.as_deref(), Some("corp"));
    assert!(id.roles.is_empty() && id.groups.is_empty());
}

#[test]
fn a_missing_issuer_is_filled_in_from_the_configuration() {
    let p = plugin(fields(CERTIFICATE));
    let id = p.build_identity(VerifiedAssertion {
        subject: "bob".to_owned(),
        issuer: None,
        attributes: StringMap::new(),
    });
    assert_eq!(id.issuer.as_deref(), Some("https://idp.example.com"));
    assert_eq!(id.subject_id.as_deref(), Some("bob"));
    assert!(id.attributes.entries().is_empty());
}

#[test]
fn every_refusal_gives_the_same_reason() {
    let mut p = parts();
    p.second = true;
    let o = resolved(&p, fields(CERTIFICATE), "2024-01-01T00:30:00Z");
    assert_eq!(reason(&o), "invalid SAML assertion");
    assert_eq!(o.detail.as_deref(), Some("multiple Assertions (signature-wrapping defense)"));

    let o = resolved(&parts(), fields(OTHER_CERTIFICATE), "2024-01-01T00:30:00Z");
    assert_eq!(reason(&o), "invalid SAML assertion");

    let parsed = Err("parse XML: Got a Null pointer".to_owned());
    let q = plugin(fields(CERTIFICATE));
    match q.resolve_document(&parsed, 0) {
        ResolveStep::Done(o) => {
            assert_eq!(reason(&o), "invalid SAML assertion");
            assert_eq!(o.detail.as_deref(), Some("parse XML: Got a Null pointer"));
        }
        ResolveStep::Canonicalize(_) => panic!("not done"),
    }

    match q.resolve(&header("X-SAML-Assertion", "***")) {
        Intake::Done(o) => {
            assert_eq!(reason(&o), "invalid SAML assertion");
            assert_eq!(o.detail.as_deref(), Some("malformed SAML assertion (base64)"));
        }
        Intake::Parse(_) => panic!("decoded"),
    }
}

#[test]
fn the_default_skew_is_two_minutes() {
    let o = resolved(&parts(), fields(CERTIFICATE), "2024-01-01T01:01:59Z");
    assert_eq!(identity(o).subject_id.as_deref(), Some("alice@example.com"));
    let o = resolved(&parts(), fields(CERTIFICATE), "2024-01-01T01:02:00Z");
    assert_eq!(o.detail.as_deref(), Some("Assertion expired (Conditions/NotOnOrAfter)"));
    let mut f = fields(CERTIFICATE);
    f.clock_skew_secs = Some(0);
    let o = resolved(&parts(), f, "2024-01-01T01:00:00Z");
    assert_eq!(o.detail.as_deref(), Some("Assertion expired (Conditions/NotOnOrAfter)"));
}

#[test]
fn a_larger_skew_never_refuses() {
    for now in ["2024-01-01T00:00:00Z", "2024-01-01T00:59:59Z"] {
        for skew in [0, 1, 120, i64::MAX as u64, i64::MAX as u64 + 1, u64::MAX] {
            let mut f = fields(CERTIFICATE);
            f.clock_skew_secs = Some(skew);
            let id = identity(resolved(&parts(), f, now));
            assert_eq!(id.subject_id.as_deref(), Some("alice@example.com"));
        }
    }
}

#[test]
fn an_unbounded_assertion_is_accepted_only_where_asked_for() {
    let mut p = parts();
    p.not_on_or_after = None;
    let o = resolved(&p, fields(CERTIFICATE), "2054-01-01T00:00:00Z");
    assert_eq!(reason(&o), "invalid SAML assertion");
    let mut f = fields(CERTIFICATE);
    f.allow_unbounded_assertion_lifetime = Some(true);
    let o = resolved(&p, f, "2054-01-01T00:00:00Z");
    assert_eq!(outcome_label(&o.resolution), "resolved");
}

#[test]
fn the_header_is_decoded() {
    let q = plugin(fields(CERTIFICATE));
    let xml = |i: Intake| match i {
        Intake::Parse(xml) => xml,
        Intake::Done(_) => panic!("done"),
    };
    assert_eq!(xml(q.resolve(&header("x-saml-assertion", "PGEvPg=="))), b"<a/>".to_vec());
    assert_eq!(xml(q.resolve(&header("X-SAML-ASSERTION", " PGE\r\n vPg=\t="))), b"<a/>".to_vec());
    let mut f = fields(CERTIFICATE);
    f.assertion_header = Some("Authorization".to_owned());
    f.assertion_scheme = Some("SAML".to_owned());
    let q = plugin(f);
    assert_eq!(xml(q.resolve(&header("authorization", "saml PGEvPg=="))), b"<a/>".to_vec());
    assert_eq!(xml(q.resolve(&header("authorization", "SAML PGE\r\n vPg=="))), b"<a/>".to_vec());
    let mut headers = header("authorization", "SAML PGEvPg==");
    headers.push(("Authorization".to_owned(), "SAML ***".to_owned()));
    assert_eq!(xml(q.resolve(&headers)), b"<a/>".to_vec());
}

#[test]
fn what_decoding_gave_is_judged() {
    assert!(matches!(judge_decoded(Ok(vec![1, 2])), Intake::Parse(v) if v == vec![1, 2]));
    assert!(matches!(judge_decoded(Err("bad".to_owned())), Intake::Done(_)));
}

#[test]
fn without_an_assertion_the_request_falls_through() {
    let mut f = fields(CERTIFICATE);
    let none = |i: Intake| match i {
        Intake::Done(o) => outcome_label(&o.resolution) == "none" && o.detail.is_none(),
        Intake::Parse(_) => false,
    };
    let q = plugin(fields(CERTIFICATE));
    assert!(none(q.resolve(&[])));
    assert!(none(q.resolve(&header("Authorization", "SAML PGEvPg=="))));
    assert!(none(q.resolve(&header("X-SAML-Assertion", " \t\r\n"))));
    f.assertion_scheme = Some("SAML".to_owned());
    let q = plugin(f);
    assert!(none(q.resolve(&header("X-SAML-Assertion", "Bearer PGEvPg=="))));
    assert!(none(q.resolve(&header("X-SAML-Assertion", "SAML "))));
}

#[test]
fn outcomes_are_labelled() {
    let resolution = IdentityResolution::Invalid { reason: "r".to_owned() };
    assert_eq!(outcome_label(&resolution), "invalid");
    assert_eq!(outcome_label(&IdentityResolution::NoAssertion), "none");
}
