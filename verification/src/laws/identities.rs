//! What becomes of a request: which header counts, what is decoded, and which
//! identity comes out.

use crate::config;
use crate::crypto;
use crate::dsig;
use crate::laws::resolution;
use crate::plugin;
use crate::plugin::{
    IdentityResolution, Intake, Outcome, PluginIdentity, PluginManifest, SamlIdentityPlugin,
};
use crate::saml;
use crate::saml::VerifiedAssertion;
use crate::text;
use vstd::prelude::*;

verus! {

/// The id of the plugin, and the reason that is given for every refusal.
pub proof fn law_plugin_names()
    ensures
        plugin::PLUGIN_ID@ == "dev.mcpg.identity.saml"@,
        plugin::REFUSAL@ == "invalid SAML assertion"@,
{
}

/// The views of identities, resolutions, outcomes and intakes hold what these hold.
pub proof fn law_identity_views(
    identity: PluginIdentity,
    reason: String,
    outcome: Outcome,
    xml: Vec<u8>,
)
    ensures
        identity@.kind == identity.kind@,
        identity@.trust_level == identity.trust_level@,
        identity@.subject_id == text::text_of(identity.subject_id),
        identity@.auth_provider == text::text_of(identity.auth_provider),
        identity@.issuer == text::text_of(identity.issuer),
        identity@.roles == identity.roles.deep_view(),
        identity@.groups == identity.groups.deep_view(),
        identity@.scopes == identity.scopes.deep_view(),
        identity@.attributes == identity.attributes@,
        (IdentityResolution::Resolved { identity })@ == plugin::ResolutionView::Resolved(identity@),
        (IdentityResolution::NoAssertion)@ == plugin::ResolutionView::NoAssertion,
        (IdentityResolution::Invalid { reason })@ == plugin::ResolutionView::Invalid(reason@),
        outcome@.resolution == outcome.resolution@,
        outcome@.detail == text::text_of(outcome.detail),
        (Intake::Parse(xml))@ == plugin::IntakeView::Parse(xml@),
        (Intake::Done(outcome))@ == plugin::IntakeView::Done(outcome@),
{
}

// ---------------------------------------------------------------------------
// Headers
// ---------------------------------------------------------------------------
/// The header that counts is the first with the name, whatever the case of its
/// letters.
pub proof fn law_header(headers: Seq<(String, String)>, target: Seq<char>)
    ensures
        match plugin::header_value(headers, target) {
            Some(v) => exists|k: int|
                {
                    &&& 0 <= k < headers.len()
                    &&& text::same_ignoring_case((#[trigger] headers[k]).0@, target)
                    &&& headers[k].1@ == v
                    &&& forall|j: int|
                        0 <= j < k ==> !text::same_ignoring_case((#[trigger] headers[j]).0@, target)
                },
            None => forall|k: int|
                0 <= k < headers.len() ==> !text::same_ignoring_case(
                    (#[trigger] headers[k]).0@,
                    target,
                ),
        },
    decreases headers.len(),
{
    if headers.len() > 0 {
        if text::same_ignoring_case(headers.first().0@, target) {
            assert(text::same_ignoring_case(headers[0].0@, target));
        } else {
            let rest = headers.drop_first();
            law_header(rest, target);
            if let Some(v) = plugin::header_value(headers, target) {
                let k = choose|k: int|
                    {
                        &&& 0 <= k < rest.len()
                        &&& text::same_ignoring_case((#[trigger] rest[k]).0@, target)
                        &&& rest[k].1@ == v
                        &&& forall|j: int|
                            0 <= j < k ==> !text::same_ignoring_case(
                                (#[trigger] rest[j]).0@,
                                target,
                            )
                    };
                assert(headers[k + 1] == rest[k]);
                assert forall|j: int| 0 <= j < k + 1 implies !text::same_ignoring_case(
                    (#[trigger] headers[j]).0@,
                    target,
                ) by {
                    if j > 0 {
                        assert(rest[j - 1] == headers[j]);
                    }
                }
            } else {
                assert forall|k: int| 0 <= k < headers.len() implies !text::same_ignoring_case(
                    (#[trigger] headers[k]).0@,
                    target,
                ) by {
                    if k > 0 {
                        assert(rest[k - 1] == headers[k]);
                    }
                }
            }
        }
    }
}

/// Looking up a header gives the value of the header that counts.
pub proof fn law_lookup<'a>(headers: &'a [(String, String)], target: &str, r: Option<&'a str>)
    requires
        call_ensures(plugin::lookup_header, (headers, target), r),
    ensures
        match r {
            Some(v) => plugin::header_value(headers@, target@) == Some(v@),
            None => plugin::header_value(headers@, target@) is None,
        },
{
}

/// A scheme is stripped exactly where the value is the scheme, whatever the case
/// of its letters, one space, and the rest.
pub proof fn law_scheme(value: Seq<char>, scheme: Seq<char>, rest: Seq<char>)
    ensures
        plugin::after_scheme(value, scheme) == Some(rest) <==> exists|head: Seq<char>|
            value == #[trigger] (head + seq![' '] + rest) && text::same_ignoring_case(head, scheme),
{
    let n = scheme.len() as int;
    if plugin::after_scheme(value, scheme) == Some(rest) {
        let head = value.take(n);
        assert(value =~= head + seq![' '] + rest);
    }
    if exists|head: Seq<char>|
        value == #[trigger] (head + seq![' '] + rest) && text::same_ignoring_case(head, scheme) {
        let head = choose|head: Seq<char>|
            value == #[trigger] (head + seq![' '] + rest) && text::same_ignoring_case(head, scheme);
        assert(value.take(n) =~= head);
        assert(value[n] == ' ');
        assert(value.skip(n + 1) =~= rest);
    }
}

/// Stripping a scheme gives the rest behind it.
pub proof fn law_strip<'a>(value: &'a str, scheme: &str, r: Option<&'a str>)
    requires
        call_ensures(plugin::strip_scheme, (value, scheme), r),
    ensures
        match r {
            Some(rest) => plugin::after_scheme(value@, scheme@) == Some(rest@),
            None => plugin::after_scheme(value@, scheme@) is None,
        },
{
}

/// What comes of the headers, in full. Without a payload that holds anything but
/// white space the request falls through. With one, however long, it is decoded:
/// into a document to be parsed where it is base64, and into the refusal where it
/// is not.
pub proof fn law_intake(
    p: plugin::PluginView,
    headers: Seq<(String, String)>,
    payload: Seq<char>,
    xml: Seq<u8>,
)
    ensures
        resolution::carried(p, headers) is None ==> plugin::intake_of(p, headers)
            == plugin::IntakeView::Done(
            plugin::OutcomeView { resolution: plugin::ResolutionView::NoAssertion, detail: None },
        ),
        resolution::carried(p, headers) == Some(payload) ==> {
            let compact = text::without_white_space(payload);
            &&& compact.len() == 0 ==> plugin::intake_of(p, headers) == plugin::IntakeView::Done(
                plugin::OutcomeView {
                    resolution: plugin::ResolutionView::NoAssertion,
                    detail: None,
                },
            )
            &&& compact.len() > 0 ==> {
                &&& crypto::base64_decoding(compact) == Ok::<Seq<u8>, Seq<char>>(xml)
                    <==> plugin::intake_of(p, headers) == plugin::IntakeView::Parse(xml)
                &&& crypto::base64_decoding(compact) is Err <==> plugin::intake_of(p, headers)
                    == plugin::IntakeView::Done(
                    plugin::OutcomeView {
                        resolution: plugin::ResolutionView::Invalid("invalid SAML assertion"@),
                        detail: Some("malformed SAML assertion (base64)"@),
                    },
                )
            }
        },
{
}

/// Resolution of headers gives what comes of them.
pub proof fn law_resolve(p: &SamlIdentityPlugin, headers: &[(String, String)], r: Intake)
    requires
        call_ensures(SamlIdentityPlugin::resolve, (p, headers), r),
    ensures
        r@ == plugin::intake_of(p@, headers@),
{
}

// ---------------------------------------------------------------------------
// Identities
// ---------------------------------------------------------------------------
/// The values of an attribute of an assertion are taken over whole and in order,
/// and none where the assertion has no such attribute.
pub open spec fn are_values_of(
    list: Seq<Seq<char>>,
    attributes: Map<Seq<char>, Seq<Seq<char>>>,
    name: Seq<char>,
) -> bool {
    &&& attributes.contains_key(name) ==> list.len() == attributes[name].len() && forall|k: int|
        0 <= k < list.len() ==> #[trigger] list[k] == attributes[name][k]
    &&& !attributes.contains_key(name) ==> list.len() == 0
}

/// The identity of an accepted assertion: its subject; its issuer, or the
/// configured one where it names none; all values of the role attribute as roles,
/// and all values of the group attribute, where one is configured, as groups; and
/// the first value of each attribute that has one. Trust level and provider are
/// the configured ones, and there are no scopes.
pub proof fn law_identity(p: plugin::PluginView, a: saml::AssertionView, name: Seq<char>)
    ensures
        ({
            let identity = plugin::identity_of(p, a);
            &&& identity.subject_id == Some(a.subject)
            &&& identity.kind == p.resolution.trust_level
            &&& identity.trust_level == p.resolution.trust_level
            &&& identity.auth_provider == Some(p.resolution.auth_provider_label)
            &&& a.issuer is Some ==> identity.issuer == a.issuer
            &&& a.issuer is None ==> identity.issuer == p.idp_entity_id
            &&& are_values_of(identity.roles, a.attributes, p.role_attribute)
            &&& p.group_attribute is Some ==> are_values_of(
                identity.groups,
                a.attributes,
                p.group_attribute->Some_0,
            )
            &&& p.group_attribute is None ==> identity.groups.len() == 0
            &&& identity.scopes.len() == 0
            &&& identity.attributes.contains_key(name) <==> a.attributes.contains_key(name)
                && a.attributes[name].len() > 0
            &&& identity.attributes.contains_key(name) ==> identity.attributes[name]
                == a.attributes[name][0]
        }),
{
}

/// Building an identity gives the identity of the assertion.
pub proof fn law_build_identity(
    p: &SamlIdentityPlugin,
    assertion: VerifiedAssertion,
    r: PluginIdentity,
)
    requires
        call_ensures(SamlIdentityPlugin::build_identity, (p, assertion), r),
    ensures
        r@ == plugin::identity_of(p@, assertion@),
{
}

/// A parsed document is resolved exactly where it is valid under the key and the
/// terms of the plugin, and to the identity of what was accepted; anything else,
/// a document that could not be parsed too, is refused with its cause kept apart.
pub proof fn law_document_outcome(
    p: plugin::PluginView,
    t: dsig::Tree,
    now: int,
    canon: dsig::Canon,
    a: saml::AssertionView,
    e: Seq<char>,
)
    ensures
        ({
            let valid = saml::validation(t, p.key, plugin::terms_of(p, now), canon);
            &&& valid == Ok::<saml::AssertionView, Seq<char>>(a) ==> plugin::document_outcome(
                p,
                Ok(t),
                now,
                canon,
            ) == (plugin::OutcomeView {
                resolution: plugin::ResolutionView::Resolved(plugin::identity_of(p, a)),
                detail: None,
            })
            &&& valid == Err::<saml::AssertionView, Seq<char>>(e) ==> plugin::document_outcome(
                p,
                Ok(t),
                now,
                canon,
            ) == (plugin::OutcomeView {
                resolution: plugin::ResolutionView::Invalid("invalid SAML assertion"@),
                detail: Some(e),
            })
            &&& plugin::document_outcome(p, Err(e), now, canon) == (plugin::OutcomeView {
                resolution: plugin::ResolutionView::Invalid("invalid SAML assertion"@),
                detail: Some(e),
            })
        }),
{
}

/// What a plugin demands: its configured issuer, audience, skew and waiver, at the
/// time it is asked.
pub proof fn law_terms(p: plugin::PluginView, now: int)
    ensures
        plugin::terms_of(p, now).issuer == p.idp_entity_id,
        plugin::terms_of(p, now).audience == p.audience,
        plugin::terms_of(p, now).now == now,
        plugin::terms_of(p, now).clock_skew == p.clock_skew,
        plugin::terms_of(p, now).allow_unbounded_lifetime == p.allow_unbounded_assertion_lifetime,
{
}

/// A plugin is what its configuration says, under the key of its certificate; the
/// skew, given in seconds, counts in nanoseconds.
pub proof fn law_plugin_of_configuration(c: config::ConfigView, key: crypto::KeyView)
    ensures
        ({
            let p = plugin::plugin_of(c, key);
            &&& p.key == key
            &&& p.idp_entity_id == c.idp_entity_id
            &&& p.audience == c.audience
            &&& p.assertion_header == c.assertion_header
            &&& p.assertion_scheme == c.assertion_scheme
            &&& p.role_attribute == c.role_attribute
            &&& p.group_attribute == c.group_attribute
            &&& p.clock_skew == c.clock_skew_secs * 1_000_000_000
            &&& p.allow_unbounded_assertion_lifetime == c.allow_unbounded_assertion_lifetime
            &&& p.resolution == c.resolution
        }),
{
}

/// The label of a resolution tells the three kinds apart.
pub proof fn law_outcome_label(resolution: &IdentityResolution, r: &'static str)
    requires
        call_ensures(plugin::outcome_label, (resolution,), r),
    ensures
        resolution is Resolved ==> r@ == "resolved"@,
        resolution is NoAssertion ==> r@ == "none"@,
        resolution is Invalid ==> r@ == "invalid"@,
{
}

/// The first segment of a module path is what stands before the first `::`, or all
/// of it where there is none.
pub proof fn law_first_segment(path: Seq<char>)
    ensures
        ({
            let segment = plugin::first_segment(path);
            &&& segment.len() <= path.len()
            &&& segment == path.take(segment.len() as int)
            &&& segment.len() < path.len() ==> begins_separator(path, segment.len() as int)
            &&& forall|i: int| 0 <= i < segment.len() ==> !#[trigger] begins_separator(path, i)
        }),
    decreases path.len(),
{
    let segment = plugin::first_segment(path);
    if path.len() == 0 || begins_separator(path, 0) {
        assert(path.take(0) =~= segment);
    } else {
        let rest = path.drop_first();
        law_first_segment(rest);
        let tail = plugin::first_segment(rest);
        assert(segment =~= path.take(segment.len() as int));
        assert forall|i: int| 0 <= i < segment.len() implies !#[trigger] begins_separator(
            path,
            i,
        ) by {
            if i > 0 {
                assert(!begins_separator(rest, i - 1));
            }
        }
        if segment.len() < path.len() {
            assert(begins_separator(rest, tail.len() as int));
        }
    }
}

/// Whether `::` begins at position `i`.
pub open spec fn begins_separator(path: Seq<char>, i: int) -> bool {
    0 <= i && i + 1 < path.len() && path[i] == ':' && path[i + 1] == ':'
}

/// The manifest names the plugin and asks for nothing.
pub proof fn law_manifest(m: PluginManifest, version: Seq<char>, path: Seq<char>)
    ensures
        plugin::is_manifest(m, version, path) <==> {
            &&& m.id@ == "dev.mcpg.identity.saml"@
            &&& m.version@ == version
            &&& m.name@ == "SAML 2.0 Identity Resolver"@
            &&& m.plugin_class is IdentityProvider
            &&& m.protocol_version@ == "1.0"@
            &&& m.license is None && m.backend_profile is None
            &&& m.required_capabilities@.len() == 0 && m.tags@.len() == 0
            &&& m.provides@.len() == 0 && m.provides_schemes@.len() == 0
            &&& m.module_path_prefix@ == plugin::first_segment(path)
        },
{
}

} // verus!
