//! Which configurations are accepted, and what their absent fields stand for.

use crate::config;
use crate::config::{ConfigError, ConfigFields, ResolutionFields, SamlConfig};
use crate::crypto;
use crate::dsig;
use crate::plugin;
use crate::plugin::SamlIdentityPlugin;
use crate::text;
use vstd::prelude::*;

verus! {

/// The views of a configuration and of its errors hold what these hold.
pub proof fn law_configuration_views(c: SamlConfig, s: String)
    ensures
        c@.idp_certificate == c.idp_certificate@,
        c@.idp_entity_id == text::text_of(c.idp_entity_id),
        c@.audience == text::text_of(c.audience),
        c@.allow_unbounded_assertion_lifetime == c.allow_unbounded_assertion_lifetime,
        c@.assertion_header == c.assertion_header@,
        c@.assertion_scheme == text::text_of(c.assertion_scheme),
        c@.role_attribute == c.role_attribute@,
        c@.group_attribute == text::text_of(c.group_attribute),
        c@.clock_skew_secs == c.clock_skew_secs,
        c@.resolution.trust_level == c.resolution.trust_level@,
        c@.resolution.auth_provider_label == c.resolution.auth_provider_label@,
        (ConfigError::InvalidJson(s))@ == config::ConfigErrorView::InvalidJson(s@),
        (ConfigError::EmptyCertificate)@ == config::ConfigErrorView::EmptyCertificate,
        (ConfigError::BadCertificate(s))@ == config::ConfigErrorView::BadCertificate(s@),
        (ConfigError::EmptyHeader)@ == config::ConfigErrorView::EmptyHeader,
        (ConfigError::InvalidTrustLevel(s))@ == config::ConfigErrorView::InvalidTrustLevel(s@),
{
}

/// A field that is given stands for itself.
pub proof fn law_given_fields(fields: ConfigFields, s: String, n: u64, b: bool)
    ensures
        ({
            let c = config::completed(fields);
            &&& c.idp_certificate == fields.idp_certificate@
            &&& c.idp_entity_id == text::text_of(fields.idp_entity_id)
            &&& c.audience == text::text_of(fields.audience)
            &&& c.assertion_scheme == text::text_of(fields.assertion_scheme)
            &&& c.group_attribute == text::text_of(fields.group_attribute)
            &&& fields.allow_unbounded_assertion_lifetime == Some(b)
                ==> c.allow_unbounded_assertion_lifetime == b
            &&& fields.assertion_header == Some(s) ==> c.assertion_header == s@
            &&& fields.role_attribute == Some(s) ==> c.role_attribute == s@
            &&& fields.clock_skew_secs == Some(n) ==> c.clock_skew_secs == n
        }),
{
}

/// A field that is absent stands for its default: an end of the validity is
/// demanded, the header is `X-SAML-Assertion`, the role attribute is `role`, the
/// skew is two minutes.
pub proof fn law_absent_fields(fields: ConfigFields)
    ensures
        ({
            let c = config::completed(fields);
            &&& fields.allow_unbounded_assertion_lifetime is None
                ==> !c.allow_unbounded_assertion_lifetime
            &&& fields.assertion_header is None ==> c.assertion_header == "X-SAML-Assertion"@
            &&& fields.role_attribute is None ==> c.role_attribute == "role"@
            &&& fields.clock_skew_secs is None ==> c.clock_skew_secs == 120
            &&& fields.resolution is None ==> c.resolution.trust_level == "verified"@
                && c.resolution.auth_provider_label == "saml"@
        }),
{
}

/// In a `resolution` section a given field stands for itself and an absent one for
/// its default.
pub proof fn law_resolution_section(fields: ConfigFields, section: ResolutionFields, s: String)
    requires
        fields.resolution == Some(section),
    ensures
        ({
            let r = config::completed(fields).resolution;
            &&& section.trust_level == Some(s) ==> r.trust_level == s@
            &&& section.trust_level is None ==> r.trust_level == "verified"@
            &&& section.auth_provider_label == Some(s) ==> r.auth_provider_label == s@
            &&& section.auth_provider_label is None ==> r.auth_provider_label == "saml"@
        }),
{
}

/// A configuration is accepted exactly where its certificate gives a key, the
/// certificate and the header are not blank, and the trust level is one of the
/// two. The first fault, in that order, is what is reported.
pub proof fn law_configuration_verdict(
    c: config::ConfigView,
    key: Result<crypto::KeyView, Seq<char>>,
    e: Seq<char>,
)
    ensures
        ({
            let verdict = config::config_verdict(c, key);
            let certified = text::trimmed(c.idp_certificate).len() > 0;
            let headed = text::trimmed(c.assertion_header).len() > 0;
            let level = c.resolution.trust_level;
            let leveled = level == "verified"@ || level == "header_asserted"@;
            &&& verdict is Ok <==> certified && key is Ok && headed && leveled
            &&& !certified ==> verdict == Err::<(), config::ConfigErrorView>(
                config::ConfigErrorView::EmptyCertificate,
            )
            &&& certified && key == Err::<crypto::KeyView, Seq<char>>(e) ==> verdict == Err::<
                (),
                config::ConfigErrorView,
            >(config::ConfigErrorView::BadCertificate(e))
            &&& certified && key is Ok && !headed ==> verdict == Err::<(), config::ConfigErrorView>(
                config::ConfigErrorView::EmptyHeader,
            )
            &&& certified && key is Ok && headed && !leveled ==> verdict == Err::<
                (),
                config::ConfigErrorView,
            >(config::ConfigErrorView::InvalidTrustLevel(level))
        }),
{
}

/// A document that was decoded is accepted exactly where what its fields stand for
/// is, and gives just that; one that was not is refused with the text of the
/// decoder.
pub proof fn law_parsed(fields: ConfigFields, e: String)
    ensures
        ({
            let c = config::completed(fields);
            let verdict = config::config_verdict(c, dsig::certificate_key(c.idp_certificate));
            &&& verdict is Ok ==> config::parsed(Ok(fields)) == Ok::<
                config::ConfigView,
                config::ConfigErrorView,
            >(c)
            &&& verdict is Err ==> config::parsed(Ok(fields)) == Err::<
                config::ConfigView,
                config::ConfigErrorView,
            >(verdict->Err_0)
            &&& config::parsed(Err(e)) == Err::<config::ConfigView, config::ConfigErrorView>(
                config::ConfigErrorView::InvalidJson(e@),
            )
        }),
{
}

/// Parsing and validating do as the configuration deserves.
pub proof fn law_parse(
    decoded: Result<ConfigFields, String>,
    r: Result<SamlConfig, ConfigError>,
    c: &SamlConfig,
    v: Result<(), ConfigError>,
)
    requires
        call_ensures(SamlConfig::parse, (decoded,), r),
        call_ensures(SamlConfig::validate, (c,), v),
    ensures
        match r {
            Ok(given) => config::parsed(decoded) == Ok::<
                config::ConfigView,
                config::ConfigErrorView,
            >(given@),
            Err(e) => config::parsed(decoded) == Err::<
                config::ConfigView,
                config::ConfigErrorView,
            >(e@),
        },
        ({
            let verdict = config::config_verdict(c@, dsig::certificate_key(c.idp_certificate@));
            match v {
                Ok(_) => verdict is Ok,
                Err(e) => verdict == Err::<(), config::ConfigErrorView>(e@),
            }
        }),
{
}

/// A plugin is loaded exactly where its configuration is accepted; it is the
/// plugin of that configuration under the key of its certificate.
pub proof fn law_loading(
    decoded: Result<ConfigFields, String>,
    version: &str,
    module: &str,
    r: Result<SamlIdentityPlugin, ConfigError>,
)
    requires
        call_ensures(SamlIdentityPlugin::from_config_json, (decoded, version, module), r),
    ensures
        r is Ok <==> config::parsed(decoded) is Ok,
        r matches Ok(p) ==> {
            let c = config::parsed(decoded)->Ok_0;
            &&& dsig::certificate_key(c.idp_certificate) matches Ok(key)
            &&& p@ == plugin::plugin_of(c, key)
            &&& plugin::is_manifest(p.declared(), version@, module@)
        },
        r matches Err(e) ==> config::parsed(decoded) == Err::<
            config::ConfigView,
            config::ConfigErrorView,
        >(e@),
{
}

/// The text of each error.
pub proof fn law_error_texts(s: String)
    ensures
        (ConfigError::InvalidJson(s)).text() == "invalid identity.saml config JSON: "@ + s@,
        (ConfigError::EmptyCertificate).text()
            == "identity.saml: idp_certificate must not be empty"@,
        (ConfigError::BadCertificate(s)).text()
            == "identity.saml: idp_certificate is not a valid RSA certificate: "@ + s@,
        (ConfigError::EmptyHeader).text() == "identity.saml: assertion_header must not be empty"@,
        (ConfigError::InvalidTrustLevel(s)).text() == "identity.saml: invalid trust_level `"@ + s@
            + "` (allowed: verified | header_asserted)"@,
{
}

} // verus!
