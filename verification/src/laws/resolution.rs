//! What holds of configurations and of resolution.

use crate::config;
use crate::config::ConfigFields;
use crate::crypto;
use crate::dsig;
use crate::laws::assertion;
use crate::document::Document;
use crate::plugin;
use crate::plugin::{ResolveStep, Resolving, SamlIdentityPlugin};
use crate::saml;
use crate::text;
use vstd::prelude::*;

verus! {

/// A configuration that is accepted names a certificate with an RSA key and a
/// header, and one of the two trust levels.
pub proof fn law_accepted_configuration(
    decoded: Result<ConfigFields, String>,
    c: config::ConfigView,
)
    requires
        config::parsed(decoded) == Ok::<config::ConfigView, config::ConfigErrorView>(c),
    ensures
        text::trimmed(c.idp_certificate).len() > 0,
        dsig::certificate_key(c.idp_certificate) is Ok,
        text::trimmed(c.assertion_header).len() > 0,
        c.resolution.trust_level == "verified"@ || c.resolution.trust_level == "header_asserted"@,
{
}

/// Every refusal gives the same reason, whatever its cause: a header that is no
/// base64, a document that is no XML, or an assertion that fails. The cause is
/// kept apart, and kept for refusals only.
pub proof fn law_refusals_are_generic(
    p: plugin::PluginView,
    headers: Seq<(String, String)>,
    parsed: Result<dsig::Tree, Seq<char>>,
    now: int,
    canon: dsig::Canon,
)
    ensures
        plugin::intake_of(p, headers) matches plugin::IntakeView::Done(o) ==> {
            ||| o.resolution == plugin::ResolutionView::Invalid(plugin::REFUSAL@)
                && o.detail is Some
            ||| o.resolution is NoAssertion && o.detail is None
        },
        ({
            let o = plugin::document_outcome(p, parsed, now, canon);
            ||| o.resolution == plugin::ResolutionView::Invalid(plugin::REFUSAL@)
                && o.detail is Some
            ||| o.resolution is Resolved && o.detail is None
        }),
{
}

/// An identity is resolved only from a document that is valid under the trust
/// anchor and the terms of the plugin; it is the identity that the accepted
/// assertion stands for, at the configured trust level, without scopes.
pub proof fn law_resolved_is_verified(
    p: plugin::PluginView,
    parsed: Result<dsig::Tree, Seq<char>>,
    now: int,
    canon: dsig::Canon,
    identity: plugin::IdentityView,
)
    requires
        plugin::document_outcome(p, parsed, now, canon).resolution
            == plugin::ResolutionView::Resolved(identity),
    ensures
        parsed matches Ok(t) && saml::validation(t, p.key, plugin::terms_of(p, now), canon) matches Ok(
            accepted,
        ) && identity == plugin::identity_of(p, accepted),
        identity.trust_level == p.resolution.trust_level,
        identity.kind == p.resolution.trust_level,
        identity.scopes.len() == 0,
{
}

/// What the headers carry for the plugin: the value of its header, behind the
/// scheme where one is configured.
pub open spec fn carried(p: plugin::PluginView, headers: Seq<(String, String)>) -> Option<Seq<char>> {
    match plugin::header_value(headers, p.assertion_header) {
        None => None,
        Some(value) => match p.assertion_scheme {
            Some(scheme) => plugin::after_scheme(value, scheme),
            None => Some(value),
        },
    }
}

/// Without the header, without the configured scheme, or with nothing behind it,
/// a request is left to other plugins.
pub proof fn law_absent_assertion_falls_through(
    p: plugin::PluginView,
    headers: Seq<(String, String)>,
)
    requires
        carried(p, headers) matches Some(rest) ==> text::without_white_space(rest).len() == 0,
    ensures
        plugin::intake_of(p, headers) matches plugin::IntakeView::Done(o) && o.resolution
            is NoAssertion,
{
}

/// The first header of a name counts: what is appended behind it does not matter.
pub proof fn law_later_headers_do_not_count(
    p: plugin::PluginView,
    headers: Seq<(String, String)>,
    more: Seq<(String, String)>,
)
    requires
        plugin::header_value(headers, p.assertion_header) is Some,
    ensures
        plugin::intake_of(p, headers + more) == plugin::intake_of(p, headers),
{
    lemma_appended(headers, more, p.assertion_header);
}

/// The value of a header that is there stays its value where headers are
/// appended.
proof fn lemma_appended(
    headers: Seq<(String, String)>,
    more: Seq<(String, String)>,
    name: Seq<char>,
)
    requires
        plugin::header_value(headers, name) is Some,
    ensures
        plugin::header_value(headers + more, name) == plugin::header_value(headers, name),
    decreases headers.len(),
{
    assert((headers + more).first() == headers.first());
    assert((headers + more).drop_first() =~= headers.drop_first() + more);
    if !text::same_ignoring_case(headers.first().0@, name) {
        lemma_appended(headers.drop_first(), more, name);
    }
}

/// The case of the letters of a header name does not matter.
pub proof fn law_header_name_case(headers: Seq<(String, String)>, a: Seq<char>, b: Seq<char>)
    requires
        text::same_ignoring_case(a, b),
    ensures
        plugin::header_value(headers, a) == plugin::header_value(headers, b),
    decreases headers.len(),
{
    if headers.len() > 0 {
        law_header_name_case(headers.drop_first(), a, b);
    }
}

/// The case of the letters of a scheme does not matter.
pub proof fn law_scheme_case(value: Seq<char>, a: Seq<char>, b: Seq<char>)
    requires
        text::same_ignoring_case(a, b),
    ensures
        plugin::after_scheme(value, a) == plugin::after_scheme(value, b),
{
    let n = a.len() as int;
    if value.len() > n {
        let head = value.take(n);
        assert forall|i: int| 0 <= i < n implies (text::ascii_lower(head[i]) == text::ascii_lower(
            a[i],
        ) <==> text::ascii_lower(head[i]) == text::ascii_lower(b[i])) by {
            assert(text::ascii_lower(a[i]) == text::ascii_lower(b[i]));
        }
        assert(text::same_ignoring_case(head, a) == text::same_ignoring_case(head, b));
    }
}

/// How the base64 text is wrapped into lines does not matter, with a scheme or
/// without one.
pub proof fn law_line_wrapping(
    p: plugin::PluginView,
    headers: Seq<(String, String)>,
    others: Seq<(String, String)>,
    payload: Seq<char>,
    wrapped: Seq<char>,
)
    requires
        carried(p, headers) == Some(payload),
        carried(p, others) == Some(wrapped),
        text::without_white_space(payload) == text::without_white_space(wrapped),
    ensures
        plugin::intake_of(p, headers) == plugin::intake_of(p, others),
{
}

/// A larger clock skew in the configuration never refuses what a smaller one
/// accepts: the same document is resolved to the same identity.
pub proof fn law_more_skew_accepts(
    c: config::ConfigView,
    clock_skew_secs: u64,
    key: crypto::KeyView,
    t: dsig::Tree,
    now: int,
    canon: dsig::Canon,
)
    requires
        c.clock_skew_secs <= clock_skew_secs,
        plugin::document_outcome(plugin::plugin_of(c, key), Ok(t), now, canon).resolution
            is Resolved,
    ensures
        plugin::document_outcome(
            plugin::plugin_of((config::ConfigView { clock_skew_secs, ..c }), key),
            Ok(t),
            now,
            canon,
        ) == plugin::document_outcome(plugin::plugin_of(c, key), Ok(t), now, canon),
{
    let less = plugin::plugin_of(c, key);
    let more = plugin::plugin_of(config::ConfigView { clock_skew_secs, ..c }, key);
    assertion::law_laxer_terms_accept(
        t,
        key,
        plugin::terms_of(less, now),
        plugin::terms_of(more, now),
        canon,
    );
    let accepted = saml::validation(t, key, plugin::terms_of(less, now), canon)->Ok_0;
    assert(plugin::identity_of(less, accepted) == plugin::identity_of(more, accepted));
}

/// A configuration that does not ask for it does not accept an assertion without
/// an end to its validity: a document whose assertion declares no
/// `NotOnOrAfter` is refused.
pub proof fn law_lifetime_is_bounded_by_default(
    fields: ConfigFields,
    key: crypto::KeyView,
    t: dsig::Tree,
    now: int,
    canon: dsig::Canon,
)
    requires
        fields.allow_unbounded_assertion_lifetime is None,
        saml::assertions_of(t).len() == 1,
        assertion::declared_end(t, saml::assertions_of(t)[0]) is None,
    ensures
        plugin::document_outcome(
            plugin::plugin_of(config::completed(fields), key),
            Ok(t),
            now,
            canon,
        ).resolution == plugin::ResolutionView::Invalid(plugin::REFUSAL@),
{
    let p = plugin::plugin_of(config::completed(fields), key);
    assertion::law_unbounded_lifetime_refused(t, key, plugin::terms_of(p, now), canon);
}

/// Whether `steps` is a run of a resolution in which every request is answered
/// as `canon` says: each step but the last asks for octets, and the next is what
/// resuming it with the answer gives.
pub open spec fn is_run<'a>(
    steps: Seq<ResolveStep<'a>>,
    replies: Seq<Result<Vec<u8>, String>>,
    canon: dsig::Canon,
) -> bool {
    &&& steps.len() == replies.len() + 1
    &&& forall|k: int|
        #![trigger replies[k]]
        0 <= k < replies.len() ==> {
            &&& steps[k] matches ResolveStep::Canonicalize(r)
            &&& canon(r.requested()) == crypto::bytes_or_text(replies[k])
            &&& call_ensures(Resolving::<'a>::resume, (r, replies[k]), steps[k + 1])
        }
}

/// However many requests it takes, a resolution that is answered as `canon` says
/// ends in the outcome of the document under `canon`.
pub proof fn law_run_ends_in_outcome<'a>(
    p: &'a SamlIdentityPlugin,
    parsed: &'a Result<Document, String>,
    now: i128,
    canon: dsig::Canon,
    steps: Seq<ResolveStep<'a>>,
    replies: Seq<Result<Vec<u8>, String>>,
)
    requires
        is_run(steps, replies, canon),
        call_ensures(SamlIdentityPlugin::resolve_document, (p, parsed, now), steps[0]),
        steps.last() is Done,
    ensures
        steps.last() matches ResolveStep::Done(o) && o@ == plugin::document_outcome(
            p@,
            plugin::tree_or_text(*parsed),
            now as int,
            canon,
        ),
{
    lemma_run(steps, replies, canon, replies.len() as int);
}

/// The outcome stays the same all along a run.
proof fn lemma_run<'a>(
    steps: Seq<ResolveStep<'a>>,
    replies: Seq<Result<Vec<u8>, String>>,
    canon: dsig::Canon,
    k: int,
)
    requires
        is_run(steps, replies, canon),
        0 <= k < steps.len(),
    ensures
        steps[k].outcome(canon) == steps[0].outcome(canon),
    decreases k,
{
    if k > 0 {
        lemma_run(steps, replies, canon, k - 1);
        let reply = replies[k - 1];
        assert(steps[k - 1] is Canonicalize);
    }
}

} // verus!
