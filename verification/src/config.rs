//! The configuration that an operator supplies.

use crate::crypto::RsaKey;
use crate::dsig;
use crate::text;
use vstd::prelude::*;
use vstd::string::*;

verus! {

/// The configuration of the plugin.
#[derive(Debug, Clone)]
pub struct SamlConfig {
    /// The identity provider's signing certificate in PEM: the trust anchor.
    /// Signatures are verified against its key, never against a certificate
    /// that a message carries.
    pub idp_certificate: String,
    /// The expected issuer. When set, an assertion of another issuer is
    /// refused.
    pub idp_entity_id: Option<String>,
    /// The expected audience (the entity id of this service). When set, an
    /// assertion must list it.
    pub audience: Option<String>,
    /// Accept an assertion that declares no `Conditions/NotOnOrAfter`. Such an
    /// assertion never expires, so this is off unless asked for.
    pub allow_unbounded_assertion_lifetime: bool,
    /// The header that carries the base64 assertion or response.
    pub assertion_header: String,
    /// A scheme to strip from the header value, such as `SAML` for
    /// `Authorization: SAML <b64>`.
    pub assertion_scheme: Option<String>,
    /// The SAML attribute whose values become roles.
    pub role_attribute: String,
    /// The SAML attribute whose values become groups.
    pub group_attribute: Option<String>,
    /// The clock skew, in seconds, allowed on the validity window.
    pub clock_skew_secs: u64,
    /// Trust level and provider label of the identities that are resolved.
    pub resolution: ResolutionConfig,
}

/// The trust that verified callers are given.
#[derive(Debug, Clone)]
pub struct ResolutionConfig {
    /// `verified`, or `header_asserted` where the contract with the identity
    /// provider is weaker.
    pub trust_level: String,
    /// The provider label of an identity.
    pub auth_provider_label: String,
}

/// The fields of a configuration document as they were given: those that have a
/// default may be absent.
#[derive(Debug, Clone)]
pub struct ConfigFields {
    pub idp_certificate: String,
    pub idp_entity_id: Option<String>,
    pub audience: Option<String>,
    pub allow_unbounded_assertion_lifetime: Option<bool>,
    pub assertion_header: Option<String>,
    pub assertion_scheme: Option<String>,
    pub role_attribute: Option<String>,
    pub group_attribute: Option<String>,
    pub clock_skew_secs: Option<u64>,
    pub resolution: Option<ResolutionFields>,
}

/// The fields of the `resolution` section as they were given.
#[derive(Debug, Clone)]
pub struct ResolutionFields {
    pub trust_level: Option<String>,
    pub auth_provider_label: Option<String>,
}

/// Why a configuration is refused.
#[derive(Debug)]
pub enum ConfigError {
    /// The document is not the JSON of a configuration.
    InvalidJson(String),
    /// There is no certificate.
    EmptyCertificate,
    /// The certificate is not a valid RSA certificate.
    BadCertificate(String),
    /// The header name is blank.
    EmptyHeader,
    /// The trust level is neither `verified` nor `header_asserted`.
    InvalidTrustLevel(String),
}

/// The model of a [`ConfigError`].
pub enum ConfigErrorView {
    InvalidJson(Seq<char>),
    EmptyCertificate,
    BadCertificate(Seq<char>),
    EmptyHeader,
    InvalidTrustLevel(Seq<char>),
}

impl View for ConfigError {
    type V = ConfigErrorView;

    open spec fn view(&self) -> ConfigErrorView {
        match self {
            ConfigError::InvalidJson(e) => ConfigErrorView::InvalidJson(e@),
            ConfigError::EmptyCertificate => ConfigErrorView::EmptyCertificate,
            ConfigError::BadCertificate(e) => ConfigErrorView::BadCertificate(e@),
            ConfigError::EmptyHeader => ConfigErrorView::EmptyHeader,
            ConfigError::InvalidTrustLevel(l) => ConfigErrorView::InvalidTrustLevel(l@),
        }
    }
}

/// The model of a [`ResolutionConfig`].
pub struct ResolutionView {
    pub trust_level: Seq<char>,
    pub auth_provider_label: Seq<char>,
}

impl View for ResolutionConfig {
    type V = ResolutionView;

    open spec fn view(&self) -> ResolutionView {
        ResolutionView {
            trust_level: self.trust_level@,
            auth_provider_label: self.auth_provider_label@,
        }
    }
}

/// The model of a [`SamlConfig`].
pub struct ConfigView {
    pub idp_certificate: Seq<char>,
    pub idp_entity_id: Option<Seq<char>>,
    pub audience: Option<Seq<char>>,
    pub allow_unbounded_assertion_lifetime: bool,
    pub assertion_header: Seq<char>,
    pub assertion_scheme: Option<Seq<char>>,
    pub role_attribute: Seq<char>,
    pub group_attribute: Option<Seq<char>>,
    pub clock_skew_secs: u64,
    pub resolution: ResolutionView,
}

impl View for SamlConfig {
    type V = ConfigView;

    open spec fn view(&self) -> ConfigView {
        ConfigView {
            idp_certificate: self.idp_certificate@,
            idp_entity_id: text::text_of(self.idp_entity_id),
            audience: text::text_of(self.audience),
            allow_unbounded_assertion_lifetime: self.allow_unbounded_assertion_lifetime,
            assertion_header: self.assertion_header@,
            assertion_scheme: text::text_of(self.assertion_scheme),
            role_attribute: self.role_attribute@,
            group_attribute: text::text_of(self.group_attribute),
            clock_skew_secs: self.clock_skew_secs,
            resolution: self.resolution@,
        }
    }
}

/// The text of an optional string, or `default` where there is none.
pub open spec fn text_or(s: Option<String>, default: Seq<char>) -> Seq<char> {
    match s {
        Some(t) => t@,
        None => default,
    }
}

/// The `resolution` section that the given fields stand for.
pub open spec fn completed_resolution(fields: Option<ResolutionFields>) -> ResolutionView {
    match fields {
        Some(f) => ResolutionView {
            trust_level: text_or(f.trust_level, "verified"@),
            auth_provider_label: text_or(f.auth_provider_label, "saml"@),
        },
        None => ResolutionView { trust_level: "verified"@, auth_provider_label: "saml"@ },
    }
}

/// The configuration that the given fields stand for: every absent field has
/// its default.
pub open spec fn completed(fields: ConfigFields) -> ConfigView {
    ConfigView {
        idp_certificate: fields.idp_certificate@,
        idp_entity_id: text::text_of(fields.idp_entity_id),
        audience: text::text_of(fields.audience),
        allow_unbounded_assertion_lifetime: match fields.allow_unbounded_assertion_lifetime {
            Some(b) => b,
            None => false,
        },
        assertion_header: text_or(fields.assertion_header, "X-SAML-Assertion"@),
        assertion_scheme: text::text_of(fields.assertion_scheme),
        role_attribute: text_or(fields.role_attribute, "role"@),
        group_attribute: text::text_of(fields.group_attribute),
        clock_skew_secs: match fields.clock_skew_secs {
            Some(n) => n,
            None => 120,
        },
        resolution: completed_resolution(fields.resolution),
    }
}

/// The verdict on a configuration, given what reading its certificate gave.
pub open spec fn config_verdict(
    config: ConfigView,
    key: Result<crate::crypto::KeyView, Seq<char>>,
) -> Result<(), ConfigErrorView> {
    if text::trimmed(config.idp_certificate).len() == 0 {
        Err(ConfigErrorView::EmptyCertificate)
    } else if key is Err {
        Err(ConfigErrorView::BadCertificate(key->Err_0))
    } else if text::trimmed(config.assertion_header).len() == 0 {
        Err(ConfigErrorView::EmptyHeader)
    } else if config.resolution.trust_level != "verified"@ && config.resolution.trust_level
        != "header_asserted"@ {
        Err(ConfigErrorView::InvalidTrustLevel(config.resolution.trust_level))
    } else {
        Ok(())
    }
}

/// What a verdict holds.
pub open spec fn verdict_view(r: Result<(), ConfigError>) -> Result<(), ConfigErrorView> {
    match r {
        Ok(_) => Ok(()),
        Err(e) => Err(e@),
    }
}

/// The configuration that a document stands for, given what decoding it gave:
/// its fields, or the text of a JSON error.
pub open spec fn parsed(decoded: Result<ConfigFields, String>) -> Result<
    ConfigView,
    ConfigErrorView,
> {
    match decoded {
        Err(e) => Err(ConfigErrorView::InvalidJson(e@)),
        Ok(fields) => {
            let config = completed(fields);
            match config_verdict(config, dsig::certificate_key(config.idp_certificate)) {
                Ok(_) => Ok(config),
                Err(e) => Err(e),
            }
        },
    }
}

/// What a result of a configuration holds.
pub open spec fn config_view(r: Result<SamlConfig, ConfigError>) -> Result<
    ConfigView,
    ConfigErrorView,
> {
    match r {
        Ok(c) => Ok(c@),
        Err(e) => Err(e@),
    }
}

/// The default of `assertion_header`.
pub fn default_assertion_header() -> (r: String)
    ensures
        r@ == "X-SAML-Assertion"@,
{
    "X-SAML-Assertion".to_owned()
}

/// The default of `role_attribute`.
pub fn default_role_attribute() -> (r: String)
    ensures
        r@ == "role"@,
{
    "role".to_owned()
}

/// The default of `clock_skew_secs`.
pub fn default_clock_skew() -> (r: u64)
    ensures
        r == 120,
{
    120
}

/// The default of `trust_level`.
pub fn default_trust_level() -> (r: String)
    ensures
        r@ == "verified"@,
{
    "verified".to_owned()
}

/// The default of `auth_provider_label`.
pub fn default_auth_provider_label() -> (r: String)
    ensures
        r@ == "saml"@,
{
    "saml".to_owned()
}

impl Default for ResolutionConfig {
    fn default() -> (r: ResolutionConfig)
        ensures
            r@ == (ResolutionView { trust_level: "verified"@, auth_provider_label: "saml"@ }),
    {
        ResolutionConfig {
            trust_level: default_trust_level(),
            auth_provider_label: default_auth_provider_label(),
        }
    }
}

impl ResolutionConfig {
    /// The section that the given fields stand for.
    pub fn from_fields(fields: Option<ResolutionFields>) -> (r: ResolutionConfig)
        ensures
            r@ == completed_resolution(fields),
    {
        match fields {
            None => ResolutionConfig::default(),
            Some(f) => ResolutionConfig {
                trust_level: match f.trust_level {
                    Some(l) => l,
                    None => default_trust_level(),
                },
                auth_provider_label: match f.auth_provider_label {
                    Some(l) => l,
                    None => default_auth_provider_label(),
                },
            },
        }
    }
}

impl ConfigError {
    /// The text of the error.
    pub open spec fn text(self) -> Seq<char> {
        match self {
            ConfigError::InvalidJson(e) => "invalid identity.saml config JSON: "@ + e@,
            ConfigError::EmptyCertificate => "identity.saml: idp_certificate must not be empty"@,
            ConfigError::BadCertificate(e) =>
                "identity.saml: idp_certificate is not a valid RSA certificate: "@ + e@,
            ConfigError::EmptyHeader => "identity.saml: assertion_header must not be empty"@,
            ConfigError::InvalidTrustLevel(l) => "identity.saml: invalid trust_level `"@ + l@
                + "` (allowed: verified | header_asserted)"@,
        }
    }

    /// The text of the error.
    pub fn message(&self) -> (r: String)
        ensures
            r@ == self.text(),
    {
        match self {
            ConfigError::InvalidJson(e) => text::joined(
                "invalid identity.saml config JSON: ",
                e.as_str(),
            ),
            ConfigError::EmptyCertificate =>
                "identity.saml: idp_certificate must not be empty".to_owned(),
            ConfigError::BadCertificate(e) => text::joined(
                "identity.saml: idp_certificate is not a valid RSA certificate: ",
                e.as_str(),
            ),
            ConfigError::EmptyHeader => "identity.saml: assertion_header must not be empty".to_owned(),
            ConfigError::InvalidTrustLevel(l) => text::joined3(
                "identity.saml: invalid trust_level `",
                l.as_str(),
                "` (allowed: verified | header_asserted)",
            ),
        }
    }
}

impl SamlConfig {
    /// The configuration that the given fields stand for.
    pub fn from_fields(fields: ConfigFields) -> (r: SamlConfig)
        ensures
            r@ == completed(fields),
    {
        SamlConfig {
            idp_certificate: fields.idp_certificate,
            idp_entity_id: fields.idp_entity_id,
            audience: fields.audience,
            allow_unbounded_assertion_lifetime: match fields.allow_unbounded_assertion_lifetime {
                Some(b) => b,
                None => false,
            },
            assertion_header: match fields.assertion_header {
                Some(h) => h,
                None => default_assertion_header(),
            },
            assertion_scheme: fields.assertion_scheme,
            role_attribute: match fields.role_attribute {
                Some(a) => a,
                None => default_role_attribute(),
            },
            group_attribute: fields.group_attribute,
            clock_skew_secs: match fields.clock_skew_secs {
                Some(n) => n,
                None => default_clock_skew(),
            },
            resolution: ResolutionConfig::from_fields(fields.resolution),
        }
    }

    /// Completes and validates what decoding a configuration document gave.
    pub fn parse(decoded: Result<ConfigFields, String>) -> (r: Result<SamlConfig, ConfigError>)
        ensures
            config_view(r) == parsed(decoded),
    {
        match decoded {
            Err(e) => Err(ConfigError::InvalidJson(e)),
            Ok(fields) => {
                let config = SamlConfig::from_fields(fields);
                match config.validate() {
                    Ok(_) => Ok(config),
                    Err(e) => Err(e),
                }
            },
        }
    }

    /// Validates the configuration, given what reading its certificate gave.
    pub fn judge(&self, key: Result<RsaKey, String>) -> (r: Result<(), ConfigError>)
        ensures
            verdict_view(r) == config_verdict(self@, dsig::key_or_text(key)),
    {
        if text::trim(self.idp_certificate.as_str()).is_empty() {
            return Err(ConfigError::EmptyCertificate);
        }
        match key {
            Ok(_) => {},
            Err(e) => return Err(ConfigError::BadCertificate(e)),
        }
        if text::trim(self.assertion_header.as_str()).is_empty() {
            return Err(ConfigError::EmptyHeader);
        }
        let level = self.resolution.trust_level.as_str();
        if text::same(level, "verified") || text::same(level, "header_asserted") {
            Ok(())
        } else {
            Err(ConfigError::InvalidTrustLevel(level.to_owned()))
        }
    }

    /// Validates the configuration; its certificate must be one with an RSA
    /// key.
    pub fn validate(&self) -> (r: Result<(), ConfigError>)
        ensures
            verdict_view(r) == config_verdict(
                self@,
                dsig::certificate_key(self.idp_certificate@),
            ),
    {
        self.judge(dsig::rsa_pubkey_from_cert_pem(self.idp_certificate.as_str()))
    }
}

} // verus!
