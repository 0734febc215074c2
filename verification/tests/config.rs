use saml_identity::config::{ConfigFields, ResolutionFields};
use saml_identity::dsig::{judge_key, judge_key_info, judge_pem, rsa_pubkey_from_cert_pem};
use saml_identity::{ConfigError, ResolutionConfig, SamlConfig, SamlIdentityPlugin};

/// A self-signed RSA certificate.
const CERTIFICATE: &str = "\
-----BEGIN CERTIFICATE-----\n\
MIICrjCCAZagAwIBAgICEmcwDQYJKoZIhvcNAQELBQAwGjEYMBYGA1UEAwwPaWRw\n\
LmV4YW1wbGUuY29tMB4XDTIwMDEwMTAwMDAwMFoXDTQ1MDEwMTAwMDAwMFowGjEY\n\
MBYGA1UEAwwPaWRwLmV4YW1wbGUuY29tMIIBIjANBgkqhkiG9w0BAQEFAAOCAQ8A\n\
MIIBCgKCAQEAoDJwpGhCHyXuF75XEvVPAnlt6zaTn5XJF/wyzP1XdCXCzmH3rHhz\n\
m3fXLYYVMxXyVISooGe/n+hG1jeGAFalIYez1gHqLwoZmrQ9530zEuY8LBnqf2vw\n\
fDkCjIzom3H15kEtlSH7bZfoAyKTo/EVezodrUCU8SKQWw6ExLX8/N3ilNfuAaak\n\
A3lNq05O18ZAwMbsWtrQmWj0nRrGzckG8nlpTtM3xFpALVcI7vGKpzoAhwjlrrjM\n\
CI3F6LwxQG1Hg4x/E3YYXXqfDihwUh+dNEbHW/kIZIifJ2qQxO4Vv0lGPTMj5+tg\n\
Q5APNfpZ7eFvVjgqbCl0BMQN4yeejfXKNQIDAQABMA0GCSqGSIb3DQEBCwUAA4IB\n\
AQB2Mf4sEUj8UErTB0dvnNH/95qoqMvzPK/vP4rGbd7VkI8DCD7146XHx3ZRsiKs\n\
hqMdbRasPncncIWUT9TFzKA+lUOklR9P91EmKdqL6G8phm291Y8OLW2aAkzctBCA\n\
3imLmJhWbEQwz+cSS5NaINLD6FjUXWNpuLxEbmiYmRLADg0DVI7/fhvt/27WmrjB\n\
vsDRAkEF//IQ9mhh/tWY8p85g/CNfYCKaVmlyz6SRm5xS24WuKRzzwtqEeWiDwRf\n\
nPAXybmay+ZfxlB2VNM/DqcXGBE29MZdi15es/ltr8BX2VrtT1i+2iSMEn1oxz/V\n\
7YGZmMiPlsq9VsM5DpI42Axp\n\
-----END CERTIFICATE-----\n\
";

/// A self-signed certificate of an elliptic curve key.
const EC_CERTIFICATE: &str = "\
-----BEGIN CERTIFICATE-----\n\
MIIBIDCBxqADAgECAgISZzAKBggqhkjOPQQDAjAZMRcwFQYDVQQDDA5lYy5leGFt\n\
cGxlLmNvbTAeFw0yMDAxMDEwMDAwMDBaFw00NTAxMDEwMDAwMDBaMBkxFzAVBgNV\n\
BAMMDmVjLmV4YW1wbGUuY29tMFkwEwYHKoZIzj0CAQYIKoZIzj0DAQcDQgAE57nJ\n\
Pesvax/RxWVLq7V/3jfP/YHRapBhZ201V1uCi2obGQPFNYXfa6f5UoXYqJGw5niA\n\
AF9YqutzTe8bnUh02jAKBggqhkjOPQQDAgNJADBGAiEApjfRpFEyg8AvYRIAgUwe\n\
9p9Vp2gHmLZQdGY/av3/pjACIQDUJiQ6vcChi0ZA/0D9IkZPdN8zU6sOLzqcxFII\n\
O2RTDQ==\n\
-----END CERTIFICATE-----\n\
";

fn fields(certificate: &str) -> ConfigFields {
    ConfigFields {
        idp_certificate: certificate.to_owned(),
        idp_entity_id: None,
        audience: None,
        allow_unbounded_assertion_lifetime: None,
        assertion_header: None,
        assertion_scheme: None,
        role_attribute: None,
        group_attribute: None,
        clock_skew_secs: None,
        resolution: None,
    }
}

#[test]
fn unbounded_assertion_lifetime_is_refused_by_default() {
    let cfg = SamlConfig::from_fields(fields("-----BEGIN CERTIFICATE-----"));
    assert!(
        !cfg.allow_unbounded_assertion_lifetime,
        "an assertion with no NotOnOrAfter must be refused unless explicitly opted in"
    );
}

#[test]
fn rejects_bad_certificate() {
    assert!(matches!(
        SamlConfig::parse(Ok(fields("not a cert"))),
        Err(ConfigError::BadCertificate(_))
    ));
}

#[test]
fn rejects_empty_certificate() {
    assert!(matches!(
        SamlConfig::parse(Ok(fields(""))),
        Err(ConfigError::EmptyCertificate)
    ));
}

#[test]
fn absent_fields_have_their_defaults() {
    let c = SamlConfig::parse(Ok(fields(CERTIFICATE))).unwrap();
    assert_eq!(c.idp_certificate, CERTIFICATE);
    assert_eq!(c.idp_entity_id, None);
    assert_eq!(c.audience, None);
    assert_eq!(c.assertion_header, "X-SAML-Assertion");
    assert_eq!(c.assertion_scheme, None);
    assert_eq!(c.role_attribute, "role");
    assert_eq!(c.group_attribute, None);
    assert_eq!(c.clock_skew_secs, 120);
    assert_eq!(c.resolution.trust_level, "verified");
    assert_eq!(c.resolution.auth_provider_label, "saml");
    let d = ResolutionConfig::default();
    assert_eq!(d.trust_level, "verified");
    assert_eq!(d.auth_provider_label, "saml");
}

#[test]
fn given_fields_are_kept() {
    let mut f = fields(CERTIFICATE);
    f.idp_entity_id = Some("https://idp.example.com".to_owned());
    f.audience = Some("gateway".to_owned());
    f.allow_unbounded_assertion_lifetime = Some(true);
    f.assertion_header = Some("Authorization".to_owned());
    f.assertion_scheme = Some("SAML".to_owned());
    f.role_attribute = Some("roles".to_owned());
    f.group_attribute = Some("memberOf".to_owned());
    f.clock_skew_secs = Some(5);
    f.resolution = Some(ResolutionFields {
        trust_level: Some("header_asserted".to_owned()),
        auth_provider_label: None,
    });
    let c = SamlConfig::parse(Ok(f)).unwrap();
    assert_eq!(c.idp_entity_id.as_deref(), Some("https://idp.example.com"));
    assert_eq!(c.audience.as_deref(), Some("gateway"));
    assert!(c.allow_unbounded_assertion_lifetime);
    assert_eq!(c.assertion_header, "Authorization");
    assert_eq!(c.assertion_scheme.as_deref(), Some("SAML"));
    assert_eq!(c.role_attribute, "roles");
    assert_eq!(c.group_attribute.as_deref(), Some("memberOf"));
    assert_eq!(c.clock_skew_secs, 5);
    assert_eq!(c.resolution.trust_level, "header_asserted");
    assert_eq!(c.resolution.auth_provider_label, "saml");
}

#[test]
fn every_configuration_error_has_its_text() {
    let e = SamlConfig::parse(Err("expected value at line 1 column 1".to_owned())).unwrap_err();
    assert!(matches!(e, ConfigError::InvalidJson(_)));
    assert_eq!(
        e.message(),
        "invalid identity.saml config JSON: expected value at line 1 column 1"
    );

    let e = SamlConfig::parse(Ok(fields(" \n\t"))).unwrap_err();
    assert!(matches!(e, ConfigError::EmptyCertificate));
    assert_eq!(
        e.message(),
        "identity.saml: idp_certificate must not be empty"
    );

    let e = SamlConfig::parse(Ok(fields(EC_CERTIFICATE))).unwrap_err();
    assert!(e.message().starts_with(
        "identity.saml: idp_certificate is not a valid RSA certificate: \
         certificate is not an RSA key: "
    ));

    let mut f = fields(CERTIFICATE);
    f.assertion_header = Some("  ".to_owned());
    let e = SamlConfig::parse(Ok(f)).unwrap_err();
    assert!(matches!(e, ConfigError::EmptyHeader));
    assert_eq!(
        e.message(),
        "identity.saml: assertion_header must not be empty"
    );

    let mut f = fields(CERTIFICATE);
    f.resolution = Some(ResolutionFields {
        trust_level: Some("Verified".to_owned()),
        auth_provider_label: None,
    });
    let e = SamlConfig::parse(Ok(f)).unwrap_err();
    assert!(matches!(e, ConfigError::InvalidTrustLevel(_)));
    assert_eq!(
        e.message(),
        "identity.saml: invalid trust_level `Verified` (allowed: verified | header_asserted)"
    );
}

#[test]
fn the_first_fault_of_a_configuration_is_reported() {
    let mut f = fields("not a cert");
    f.assertion_header = Some("".to_owned());
    assert!(matches!(
        SamlConfig::parse(Ok(f)),
        Err(ConfigError::BadCertificate(_))
    ));
    let c = SamlConfig::from_fields(fields("unread"));
    assert!(matches!(
        c.judge(Err("no key".to_owned())),
        Err(ConfigError::BadCertificate(e)) if e == "no key"
    ));
}

#[test]
fn the_key_of_a_certificate_is_read() {
    let key = rsa_pubkey_from_cert_pem(CERTIFICATE).ok().unwrap();
    let hex: String = key.modulus.iter().map(|b| format!("{:02x}", b)).collect();
    assert_eq!(hex, MODULUS);
    assert_eq!(key.exponent, vec![1, 0, 1]);
    let e = rsa_pubkey_from_cert_pem("not a cert").err().unwrap();
    assert!(e.starts_with("parse IdP certificate PEM: "));
    let e = rsa_pubkey_from_cert_pem(EC_CERTIFICATE).err().unwrap();
    assert!(e.starts_with("certificate is not an RSA key: "));
}

#[test]
fn a_certificate_that_ends_early_is_refused() {
    for body in ["MIIB", "MII=", "MA==", "MAA="] {
        let pem = format!("-----BEGIN CERTIFICATE-----\n{body}\n-----END CERTIFICATE-----\n");
        let e = rsa_pubkey_from_cert_pem(&pem).err().unwrap();
        assert!(e.starts_with("parse IdP certificate PEM: "));
        assert!(matches!(
            SamlConfig::parse(Ok(fields(&pem))),
            Err(ConfigError::BadCertificate(_))
        ));
    }
}

#[test]
fn another_kind_of_pem_document_is_refused() {
    let pem = CERTIFICATE.replace("CERTIFICATE", "PUBLIC KEY");
    assert_eq!(
        rsa_pubkey_from_cert_pem(&pem).err().unwrap(),
        "parse IdP certificate PEM: PEM error: unexpected PEM type label: expecting \"CERTIFICATE\""
    );
    assert_eq!(
        rsa_pubkey_from_cert_pem("not a cert").err().unwrap(),
        "parse IdP certificate PEM: PEM error: PEM preamble contains invalid data (NUL byte)"
    );
}

#[test]
fn what_decoding_a_pem_document_gave_is_judged() {
    assert_eq!(judge_pem(Ok(("CERTIFICATE".to_owned(), vec![7]))), Ok(vec![7]));
    assert!(judge_pem(Ok(("certificate".to_owned(), vec![7]))).is_err());
    assert_eq!(
        judge_pem(Err("bad".to_owned())),
        Err("parse IdP certificate PEM: PEM error: bad".to_owned())
    );
}

#[test]
fn what_reading_a_certificate_gave_is_judged() {
    assert_eq!(judge_key_info(Ok(Ok(vec![1, 2]))), Ok(vec![1, 2]));
    assert_eq!(
        judge_key_info(Ok(Err("bad".to_owned()))),
        Err("encode certificate SPKI: bad".to_owned())
    );
    assert_eq!(
        judge_key_info(Err("bad".to_owned())),
        Err("parse IdP certificate PEM: bad".to_owned())
    );
    let key = judge_key(Ok((vec![9], vec![3]))).ok().unwrap();
    assert_eq!((key.modulus, key.exponent), (vec![9], vec![3]));
    assert_eq!(
        judge_key(Err("bad".to_owned())).err(),
        Some("certificate is not an RSA key: bad".to_owned())
    );
}

#[test]
fn the_plugin_declares_itself() {
    let p = SamlIdentityPlugin::from_config_json(
        Ok(fields(CERTIFICATE)),
        "1.2.3",
        "saml_identity::plugin::tests",
    )
    .ok()
    .unwrap();
    let m = p.manifest();
    assert_eq!(m.id, "dev.mcpg.identity.saml");
    assert_eq!(m.version, "1.2.3");
    assert_eq!(m.name, "SAML 2.0 Identity Resolver");
    assert_eq!(m.protocol_version, "1.0");
    assert_eq!(m.module_path_prefix, "saml_identity");
    assert!(m.license.is_none() && m.backend_profile.is_none());
    assert!(m.required_capabilities.is_empty() && m.tags.is_empty());
    assert!(m.provides.is_empty() && m.provides_schemes.is_empty());
}

#[test]
fn a_refused_configuration_is_not_loaded() {
    assert!(matches!(
        SamlIdentityPlugin::from_config_json(Ok(fields("not a cert")), "1", "m").err(),
        Some(ConfigError::BadCertificate(_))
    ));
    assert!(matches!(
        SamlIdentityPlugin::from_config_json(Err("eof".to_owned()), "1", "m").err(),
        Some(ConfigError::InvalidJson(_))
    ));
}

/// The modulus of [`CERTIFICATE`].
const MODULUS: &str = "\
a03270a468421f25ee17be5712f54f02796deb36939f95c917fc32ccfd577425c2ce61f7ac78\
739b77d72d86153315f25484a8a067bf9fe846d637860056a52187b3d601ea2f0a199ab43de7\
7d3312e63c2c19ea7f6bf07c39028c8ce89b71f5e6412d9521fb6d97e8032293a3f1157b3a1d\
ad4094f122905b0e84c4b5fcfcdde294d7ee01a6a403794dab4e4ed7c640c0c6ec5adad09968\
f49d1ac6cdc906f279694ed337c45a402d5708eef18aa73a008708e5aeb8cc088dc5e8bc3140\
6d47838c7f1376185d7a9f0e2870521f9d3446c75bf90864889f276a90c4ee15bf49463d3323\
e7eb6043900f35fa59ede16f56382a6c297404c40de3279e8df5ca35\
";
