//! The identity plugin: from the headers of a request to an identity.
//!
//! Resolution stops where it needs an XML parser or a canonicalizer, says what
//! it needs, and goes on with the reply.

use crate::c14n;
use crate::c14n::CanonRequest;
use crate::config;
use crate::config::{ConfigError, ConfigFields, ResolutionConfig, SamlConfig};
use crate::crypto;
use crate::crypto::RsaKey;
use crate::document::Document;
use crate::dsig;
use crate::saml;
use crate::saml::{ValidateStep, Validation, VerifiedAssertion};
use crate::string_map;
use crate::string_map::StringMap;
use crate::text;
use vstd::prelude::*;
use vstd::string::*;

verus! {

/// The id of the plugin.
pub const PLUGIN_ID: &'static str = "dev.mcpg.identity.saml";

/// The reason that is given for every refusal; the cause stays in the logs.
pub const REFUSAL: &'static str = "invalid SAML assertion";

/// What a plugin is for.
pub enum PluginClass {
    IdentityProvider,
}

/// What a plugin says of itself.
pub struct PluginManifest {
    pub id: String,
    pub version: String,
    pub name: String,
    pub plugin_class: PluginClass,
    pub protocol_version: String,
    pub license: Option<String>,
    pub required_capabilities: Vec<String>,
    pub tags: Vec<String>,
    pub provides: Vec<String>,
    pub provides_schemes: Vec<String>,
    pub module_path_prefix: String,
    pub backend_profile: Option<String>,
}

/// A resolved identity.
pub struct PluginIdentity {
    pub kind: String,
    pub trust_level: String,
    pub subject_id: Option<String>,
    pub auth_provider: Option<String>,
    pub issuer: Option<String>,
    pub roles: Vec<String>,
    pub groups: Vec<String>,
    pub scopes: Vec<String>,
    pub attributes: StringMap<String>,
}

/// The model of a [`PluginIdentity`].
pub struct IdentityView {
    pub kind: Seq<char>,
    pub trust_level: Seq<char>,
    pub subject_id: Option<Seq<char>>,
    pub auth_provider: Option<Seq<char>>,
    pub issuer: Option<Seq<char>>,
    pub roles: Seq<Seq<char>>,
    pub groups: Seq<Seq<char>>,
    pub scopes: Seq<Seq<char>>,
    pub attributes: Map<Seq<char>, Seq<char>>,
}

impl View for PluginIdentity {
    type V = IdentityView;

    open spec fn view(&self) -> IdentityView {
        IdentityView {
            kind: self.kind@,
            trust_level: self.trust_level@,
            subject_id: text::text_of(self.subject_id),
            auth_provider: text::text_of(self.auth_provider),
            issuer: text::text_of(self.issuer),
            roles: self.roles.deep_view(),
            groups: self.groups.deep_view(),
            scopes: self.scopes.deep_view(),
            attributes: self.attributes@,
        }
    }
}

/// What resolution comes to: an identity, no assertion at all (another plugin
/// may know the caller), or a refusal.
pub enum IdentityResolution {
    Resolved { identity: PluginIdentity },
    NoAssertion,
    Invalid { reason: String },
}

/// The model of an [`IdentityResolution`].
pub enum ResolutionView {
    Resolved(IdentityView),
    NoAssertion,
    Invalid(Seq<char>),
}

impl View for IdentityResolution {
    type V = ResolutionView;

    open spec fn view(&self) -> ResolutionView {
        match self {
            IdentityResolution::Resolved { identity } => ResolutionView::Resolved(identity@),
            IdentityResolution::NoAssertion => ResolutionView::NoAssertion,
            IdentityResolution::Invalid { reason } => ResolutionView::Invalid(reason@),
        }
    }
}

/// A resolution, and the cause of a refusal for the logs.
pub struct Outcome {
    pub resolution: IdentityResolution,
    pub detail: Option<String>,
}

/// The model of an [`Outcome`].
pub struct OutcomeView {
    pub resolution: ResolutionView,
    pub detail: Option<Seq<char>>,
}

impl View for Outcome {
    type V = OutcomeView;

    open spec fn view(&self) -> OutcomeView {
        OutcomeView { resolution: self.resolution@, detail: text::text_of(self.detail) }
    }
}

/// The identity plugin: its trust anchor and what its configuration says.
pub struct SamlIdentityPlugin {
    manifest: PluginManifest,
    key: RsaKey,
    idp_entity_id: Option<String>,
    audience: Option<String>,
    assertion_header: String,
    assertion_scheme: Option<String>,
    role_attribute: String,
    group_attribute: Option<String>,
    /// In nanoseconds.
    clock_skew: i128,
    allow_unbounded_assertion_lifetime: bool,
    resolution: ResolutionConfig,
}

/// The model of a [`SamlIdentityPlugin`].
pub struct PluginView {
    pub key: crypto::KeyView,
    pub idp_entity_id: Option<Seq<char>>,
    pub audience: Option<Seq<char>>,
    pub assertion_header: Seq<char>,
    pub assertion_scheme: Option<Seq<char>>,
    pub role_attribute: Seq<char>,
    pub group_attribute: Option<Seq<char>>,
    pub clock_skew: int,
    pub allow_unbounded_assertion_lifetime: bool,
    pub resolution: config::ResolutionView,
}

impl View for SamlIdentityPlugin {
    type V = PluginView;

    closed spec fn view(&self) -> PluginView {
        PluginView {
            key: self.key@,
            idp_entity_id: text::text_of(self.idp_entity_id),
            audience: text::text_of(self.audience),
            assertion_header: self.assertion_header@,
            assertion_scheme: text::text_of(self.assertion_scheme),
            role_attribute: self.role_attribute@,
            group_attribute: text::text_of(self.group_attribute),
            clock_skew: self.clock_skew as int,
            allow_unbounded_assertion_lifetime: self.allow_unbounded_assertion_lifetime,
            resolution: self.resolution@,
        }
    }
}

// ---------------------------------------------------------------------------
// Headers
// ---------------------------------------------------------------------------
/// The value of the first header with the name `target`, whatever the case of
/// its letters.
pub open spec fn header_value(headers: Seq<(String, String)>, target: Seq<char>) -> Option<Seq<char>>
    decreases headers.len(),
{
    if headers.len() == 0 {
        None
    } else if text::same_ignoring_case(headers.first().0@, target) {
        Some(headers.first().1@)
    } else {
        header_value(headers.drop_first(), target)
    }
}

/// What follows `<scheme> ` in `value`, where it begins so, whatever the case of
/// the ASCII letters of the scheme.
pub open spec fn after_scheme(value: Seq<char>, scheme: Seq<char>) -> Option<Seq<char>> {
    if value.len() > scheme.len() && text::same_ignoring_case(value.take(scheme.len() as int), scheme)
        && value[scheme.len() as int] == ' ' {
        Some(value.skip((scheme.len() + 1) as int))
    } else {
        None
    }
}

/// The base64 text of the assertion that the headers carry, without any white
/// space: none where the header or the scheme is absent, or where nothing
/// follows.
pub open spec fn payload_of(plugin: PluginView, headers: Seq<(String, String)>) -> Option<
    Seq<char>,
> {
    match header_value(headers, plugin.assertion_header) {
        None => None,
        Some(value) => {
            let rest = match plugin.assertion_scheme {
                Some(scheme) => after_scheme(value, scheme),
                None => Some(value),
            };
            match rest {
                None => None,
                Some(s) => if text::without_white_space(s).len() > 0 {
                    Some(text::without_white_space(s))
                } else {
                    None
                },
            }
        },
    }
}

/// The value of the first header with the name `target`, whatever the case of
/// its letters.
pub fn lookup_header<'a>(headers: &'a [(String, String)], target: &str) -> (r: Option<&'a str>)
    ensures
        text::str_text(r) == header_value(headers@, target@),
{
    let mut i: usize = 0;
    assert(headers@.skip(0) =~= headers@);
    while i < headers.len()
        invariant
            i <= headers.len(),
            header_value(headers@, target@) == header_value(headers@.skip(i as int), target@),
        decreases headers.len() - i,
    {
        assert(headers@.skip(i as int).first() == headers@[i as int]);
        assert(headers@.skip(i as int).drop_first() =~= headers@.skip(i + 1));
        if text::eq_ignore_ascii_case(headers[i].0.as_str(), target) {
            return Some(headers[i].1.as_str());
        }
        i = i + 1;
    }
    None
}

/// Strips a case-insensitive `<scheme> ` prefix.
pub fn strip_scheme<'a>(value: &'a str, scheme: &str) -> (r: Option<&'a str>)
    ensures
        text::str_text(r) == after_scheme(value@, scheme@),
{
    let v = text::characters(value);
    let s = text::characters(scheme);
    let n = s.len();
    if v.len() <= n {
        return None;
    }
    let head = value.substring_char(0, n);
    assert(head@ =~= value@.take(n as int));
    if !text::eq_ignore_ascii_case(head, scheme) || v[n] != ' ' {
        return None;
    }
    let rest = value.substring_char(n + 1, v.len());
    assert(rest@ =~= value@.skip(n + 1));
    Some(rest)
}

// ---------------------------------------------------------------------------
// Identities
// ---------------------------------------------------------------------------
/// The first value of each attribute that has one.
pub open spec fn first_values(m: Map<Seq<char>, Seq<Seq<char>>>) -> Map<Seq<char>, Seq<char>> {
    Map::new(
        |name: Seq<char>| m.contains_key(name) && m[name].len() > 0,
        |name: Seq<char>| m[name][0],
    )
}

/// The identity that a verified assertion stands for.
pub open spec fn identity_of(plugin: PluginView, assertion: saml::AssertionView) -> IdentityView {
    IdentityView {
        kind: plugin.resolution.trust_level,
        trust_level: plugin.resolution.trust_level,
        subject_id: Some(assertion.subject),
        auth_provider: Some(plugin.resolution.auth_provider_label),
        issuer: match assertion.issuer {
            Some(name) => Some(name),
            None => plugin.idp_entity_id,
        },
        roles: saml::values_under(assertion.attributes, plugin.role_attribute),
        groups: match plugin.group_attribute {
            Some(name) => saml::values_under(assertion.attributes, name),
            None => Seq::empty(),
        },
        scopes: Seq::empty(),
        attributes: first_values(assertion.attributes),
    }
}

/// The values under `name`, none where there is no such name.
fn values(attributes: &saml::Attributes, name: &str) -> (r: Vec<String>)
    ensures
        r.deep_view() == saml::values_under(attributes@, name@),
{
    match attributes.get(name) {
        Some(v) => text::copied(v),
        None => {
            let none: Vec<String> = Vec::new();
            assert(none.deep_view() =~= Seq::<Seq<char>>::empty());
            none
        },
    }
}

/// The first value of each attribute that has one.
fn project(attributes: &saml::Attributes) -> (r: StringMap<String>)
    ensures
        r@ == first_values(attributes@),
{
    let entries = attributes.entries();
    let ghost all = attributes.pairs();
    let mut r: StringMap<String> = StringMap::new();
    let mut i: usize = 0;
    assert(r@ =~= first_values(string_map::map_of(all.take(0))));
    while i < entries.len()
        invariant
            i <= entries.len(),
            entries@.map_values(|e: (String, Vec<String>)| (e.0@, e.1.deep_view())) == all,
            string_map::increasing(all),
            r@ == first_values(string_map::map_of(all.take(i as int))),
        decreases entries.len() - i,
    {
        let ghost before = string_map::map_of(all.take(i as int));
        let ghost after = string_map::map_of(all.take(i + 1));
        let ghost name = all[i as int].0;
        let ghost list = all[i as int].1;
        proof {
            string_map::lemma_take_next(all, i as int);
            assert(all[i as int] == (entries@[i as int].0@, entries@[i as int].1.deep_view()));
            assert(list.len() > 0 ==> first_values(after) =~= first_values(before).insert(
                name,
                list[0],
            ));
            assert(list.len() == 0 ==> first_values(after) =~= first_values(before));
        }
        if entries[i].1.len() > 0 {
            r.insert(entries[i].0.clone(), entries[i].1[0].clone());
        }
        i = i + 1;
    }
    assert(all.take(i as int) =~= all);
    r
}

// ---------------------------------------------------------------------------
// Loading
// ---------------------------------------------------------------------------
/// What stands before the first `::` of a module path.
pub open spec fn first_segment(path: Seq<char>) -> Seq<char>
    decreases path.len(),
{
    if path.len() == 0 || (path.len() > 1 && path[0] == ':' && path[1] == ':') {
        Seq::empty()
    } else {
        seq![path[0]] + first_segment(path.drop_first())
    }
}

/// Whether `m` is the manifest of the plugin at the given version, in the crate
/// of the module `path`.
pub open spec fn is_manifest(m: PluginManifest, version: Seq<char>, path: Seq<char>) -> bool {
    &&& m.id@ == PLUGIN_ID@
    &&& m.version@ == version
    &&& m.name@ == "SAML 2.0 Identity Resolver"@
    &&& m.plugin_class == PluginClass::IdentityProvider
    &&& m.protocol_version@ == "1.0"@
    &&& m.license is None
    &&& m.required_capabilities@.len() == 0
    &&& m.tags@.len() == 0
    &&& m.provides@.len() == 0
    &&& m.provides_schemes@.len() == 0
    &&& m.module_path_prefix@ == first_segment(path)
    &&& m.backend_profile is None
}

/// The plugin that a configuration and its trust anchor stand for.
pub open spec fn plugin_of(c: config::ConfigView, key: crypto::KeyView) -> PluginView {
    PluginView {
        key,
        idp_entity_id: c.idp_entity_id,
        audience: c.audience,
        assertion_header: c.assertion_header,
        assertion_scheme: c.assertion_scheme,
        role_attribute: c.role_attribute,
        group_attribute: c.group_attribute,
        clock_skew: c.clock_skew_secs * 1_000_000_000,
        allow_unbounded_assertion_lifetime: c.allow_unbounded_assertion_lifetime,
        resolution: c.resolution,
    }
}

/// What stands before the first `::` of a module path.
fn head_of_path(path: &str) -> (r: String)
    ensures
        r@ == first_segment(path@),
{
    let v = text::characters(path);
    let mut i: usize = 0;
    assert(path@.skip(0) =~= path@);
    assert(path@.take(0) + first_segment(path@) =~= first_segment(path@));
    while i < v.len() && !(v[i] == ':' && i + 1 < v.len() && v[i + 1] == ':')
        invariant
            i <= v.len(),
            v@ == path@,
            first_segment(path@) == path@.take(i as int) + first_segment(path@.skip(i as int)),
        decreases v.len() - i,
    {
        let ghost rest = path@.skip(i as int);
        assert(rest.drop_first() =~= path@.skip(i + 1));
        assert(path@.take(i + 1) =~= path@.take(i as int) + seq![rest[0]]);
        assert(path@.take(i + 1) + first_segment(path@.skip(i + 1)) =~= path@.take(i as int) + (
        seq![rest[0]] + first_segment(rest.drop_first())));
        i = i + 1;
    }
    assert(first_segment(path@.skip(i as int)) =~= Seq::<char>::empty());
    assert(first_segment(path@) =~= path@.take(i as int));
    path.substring_char(0, i).to_owned()
}

impl SamlIdentityPlugin {
    /// The manifest of the plugin.
    pub closed spec fn declared(self) -> PluginManifest {
        self.manifest
    }

    /// The manifest of the plugin.
    pub fn manifest(&self) -> (r: &PluginManifest)
        ensures
            *r == self.declared(),
    {
        &self.manifest
    }

    /// The plugin for a configuration and its trust anchor.
    fn from_config(config: SamlConfig, key: RsaKey, version: &str, module: &str) -> (r: Self)
        ensures
            r@ == plugin_of(config@, key@),
            is_manifest(r.declared(), version@, module@),
    {
        SamlIdentityPlugin {
            manifest: PluginManifest {
                id: PLUGIN_ID.to_owned(),
                version: version.to_owned(),
                name: "SAML 2.0 Identity Resolver".to_owned(),
                plugin_class: PluginClass::IdentityProvider,
                protocol_version: "1.0".to_owned(),
                license: None,
                required_capabilities: Vec::new(),
                tags: Vec::new(),
                provides: Vec::new(),
                provides_schemes: Vec::new(),
                module_path_prefix: head_of_path(module),
                backend_profile: None,
            },
            key,
            idp_entity_id: config.idp_entity_id,
            audience: config.audience,
            assertion_header: config.assertion_header,
            assertion_scheme: config.assertion_scheme,
            role_attribute: config.role_attribute,
            group_attribute: config.group_attribute,
            clock_skew: config.clock_skew_secs as i128 * 1_000_000_000,
            allow_unbounded_assertion_lifetime: config.allow_unbounded_assertion_lifetime,
            resolution: config.resolution,
        }
    }

    /// Loads the plugin from what decoding its configuration document gave. A
    /// configuration that is refused is an error: a resolver that is set up
    /// wrong must not be loaded.
    pub fn from_config_json(
        decoded: Result<ConfigFields, String>,
        version: &str,
        module: &str,
    ) -> (r: Result<Self, ConfigError>)
        ensures
            match r {
                Ok(plugin) => {
                    &&& config::parsed(decoded) matches Ok(c)
                    &&& dsig::certificate_key(c.idp_certificate) matches Ok(key)
                    &&& plugin@ == plugin_of(c, key)
                    &&& is_manifest(plugin.declared(), version@, module@)
                },
                Err(e) => config::parsed(decoded) == Err::<
                    config::ConfigView,
                    config::ConfigErrorView,
                >(e@),
            },
    {
        match SamlConfig::parse(decoded) {
            Err(e) => Err(e),
            Ok(config) => match dsig::rsa_pubkey_from_cert_pem(config.idp_certificate.as_str()) {
                Ok(key) => Ok(SamlIdentityPlugin::from_config(config, key, version, module)),
                Err(e) => {
                    // A configuration that was accepted has a certificate that can be read.
                    assert(false);
                    Err(ConfigError::BadCertificate(e))
                },
            },
        }
    }
}

// ---------------------------------------------------------------------------
// Resolution
// ---------------------------------------------------------------------------
/// What the headers of a request lead to: a document to be parsed, or an outcome
/// at once.
pub enum Intake {
    Parse(Vec<u8>),
    Done(Outcome),
}

/// The model of an [`Intake`].
pub enum IntakeView {
    Parse(Seq<u8>),
    Done(OutcomeView),
}

impl View for Intake {
    type V = IntakeView;

    open spec fn view(&self) -> IntakeView {
        match self {
            Intake::Parse(xml) => IntakeView::Parse(xml@),
            Intake::Done(o) => IntakeView::Done(o@),
        }
    }
}

/// A refusal with its cause.
pub open spec fn refused(detail: Seq<char>) -> OutcomeView {
    OutcomeView { resolution: ResolutionView::Invalid(REFUSAL@), detail: Some(detail) }
}

/// What decoding the base64 text of an assertion leads to.
pub open spec fn decoded_intake(decoded: Result<Seq<u8>, Seq<char>>) -> IntakeView {
    match decoded {
        Ok(xml) => IntakeView::Parse(xml),
        Err(_) => IntakeView::Done(refused("malformed SAML assertion (base64)"@)),
    }
}

/// What the headers of a request lead to.
pub open spec fn intake_of(plugin: PluginView, headers: Seq<(String, String)>) -> IntakeView {
    match payload_of(plugin, headers) {
        None => IntakeView::Done(
            OutcomeView { resolution: ResolutionView::NoAssertion, detail: None },
        ),
        Some(s) => decoded_intake(crypto::base64_decoding(s)),
    }
}

/// The terms that a plugin demands at the instant `now`.
pub open spec fn terms_of(plugin: PluginView, now: int) -> saml::TermsView {
    saml::TermsView {
        issuer: plugin.idp_entity_id,
        audience: plugin.audience,
        now,
        clock_skew: plugin.clock_skew,
        allow_unbounded_lifetime: plugin.allow_unbounded_assertion_lifetime,
    }
}

/// The outcome for what validation said.
pub open spec fn validated_outcome(
    plugin: PluginView,
    validated: Result<saml::AssertionView, Seq<char>>,
) -> OutcomeView {
    match validated {
        Ok(assertion) => OutcomeView {
            resolution: ResolutionView::Resolved(identity_of(plugin, assertion)),
            detail: None,
        },
        Err(detail) => refused(detail),
    }
}

/// What a result of a document holds.
pub open spec fn tree_or_text(parsed: Result<Document, String>) -> Result<dsig::Tree, Seq<char>> {
    match parsed {
        Ok(doc) => Ok(doc@),
        Err(e) => Err(e@),
    }
}

/// The outcome for what parsing gave, at the instant `now`, where `canon` gives
/// the canonical octets.
pub open spec fn document_outcome(
    plugin: PluginView,
    parsed: Result<dsig::Tree, Seq<char>>,
    now: int,
    canon: dsig::Canon,
) -> OutcomeView {
    validated_outcome(
        plugin,
        match parsed {
            Ok(t) => saml::validation(t, plugin.key, terms_of(plugin, now), canon),
            Err(e) => Err(e),
        },
    )
}

/// Where the resolution of a parsed document stands: it waits for canonical
/// octets, or it is done.
pub enum ResolveStep<'a> {
    Canonicalize(Resolving<'a>),
    Done(Outcome),
}

/// A resolution that waits for canonical octets.
pub struct Resolving<'a> {
    plugin: &'a SamlIdentityPlugin,
    validation: Validation<'a>,
}

impl<'a> Resolving<'a> {
    /// The canonicalization that is asked for.
    pub closed spec fn requested(self) -> c14n::RequestView {
        self.validation.requested()
    }

    /// How many canonicalizations are still needed.
    pub closed spec fn remaining(self) -> nat {
        self.validation.remaining()
    }

    /// The outcome that this resolution comes to, where `canon` gives the
    /// canonical octets.
    pub closed spec fn outcome(self, canon: dsig::Canon) -> OutcomeView {
        validated_outcome(self.plugin@, self.validation.outcome(canon))
    }

    /// The canonicalization that is asked for.
    pub fn request(&self) -> (r: &CanonRequest)
        ensures
            r@ == self.requested(),
    {
        self.validation.request()
    }

    /// Goes on with the reply to the request. Where the reply is what `canon`
    /// gives for the request, the outcome stays what it is under `canon`.
    pub fn resume(self, reply: Result<Vec<u8>, String>) -> (step: ResolveStep<'a>)
        ensures
            forall|canon: dsig::Canon|
                canon(self.requested()) == crypto::bytes_or_text(reply) ==> #[trigger] step.outcome(
                    canon,
                ) == self.outcome(canon),
            step matches ResolveStep::Canonicalize(r) ==> r.remaining() + 1 == self.remaining(),
    {
        let Resolving { plugin, validation } = self;
        plugin.proceed(validation.resume(reply))
    }
}

impl<'a> ResolveStep<'a> {
    /// The outcome that this step comes to, where `canon` gives the canonical
    /// octets.
    pub open spec fn outcome(self, canon: dsig::Canon) -> OutcomeView {
        match self {
            ResolveStep::Canonicalize(r) => r.outcome(canon),
            ResolveStep::Done(o) => o@,
        }
    }
}

/// A refusal with its cause.
fn refuse(detail: String) -> (r: Outcome)
    ensures
        r@ == refused(detail@),
{
    Outcome {
        resolution: IdentityResolution::Invalid { reason: REFUSAL.to_owned() },
        detail: Some(detail),
    }
}

/// Judges what decoding the base64 text of an assertion gave.
pub fn judge_decoded(decoded: Result<Vec<u8>, String>) -> (r: Intake)
    ensures
        r@ == decoded_intake(crypto::bytes_or_text(decoded)),
{
    match decoded {
        Ok(xml) => Intake::Parse(xml),
        Err(_) => Intake::Done(refuse("malformed SAML assertion (base64)".to_owned())),
    }
}

/// The label under which a resolution is counted.
pub fn outcome_label(resolution: &IdentityResolution) -> (r: &'static str)
    ensures
        r@ == match resolution@ {
            ResolutionView::Resolved(_) => "resolved"@,
            ResolutionView::NoAssertion => "none"@,
            ResolutionView::Invalid(_) => "invalid"@,
        },
{
    match resolution {
        IdentityResolution::Resolved { .. } => "resolved",
        IdentityResolution::NoAssertion => "none",
        IdentityResolution::Invalid { .. } => "invalid",
    }
}

/// A copy of an optional string.
fn copy_of(s: &Option<String>) -> (r: Option<String>)
    ensures
        text::text_of(r) == text::text_of(*s),
{
    match s {
        Some(t) => Some(t.clone()),
        None => None,
    }
}

/// An optional string as an optional slice.
fn slice_of(s: &Option<String>) -> (r: Option<&str>)
    ensures
        text::str_text(r) == text::text_of(*s),
{
    match s {
        Some(t) => Some(t.as_str()),
        None => None,
    }
}

impl SamlIdentityPlugin {
    /// The identity that a verified assertion stands for.
    pub fn build_identity(&self, assertion: VerifiedAssertion) -> (r: PluginIdentity)
        ensures
            r@ == identity_of(self@, assertion@),
    {
        let roles = values(&assertion.attributes, self.role_attribute.as_str());
        let scopes: Vec<String> = Vec::new();
        assert(scopes.deep_view() =~= Seq::<Seq<char>>::empty());
        let groups = match &self.group_attribute {
            Some(name) => values(&assertion.attributes, name.as_str()),
            None => {
                let none: Vec<String> = Vec::new();
                assert(none.deep_view() =~= Seq::<Seq<char>>::empty());
                none
            },
        };
        let attributes = project(&assertion.attributes);
        PluginIdentity {
            kind: self.resolution.trust_level.clone(),
            trust_level: self.resolution.trust_level.clone(),
            subject_id: Some(assertion.subject),
            auth_provider: Some(self.resolution.auth_provider_label.clone()),
            issuer: match assertion.issuer {
                Some(name) => Some(name),
                None => copy_of(&self.idp_entity_id),
            },
            roles,
            groups,
            scopes,
            attributes,
        }
    }

    /// Begins to resolve the identity of a caller from the headers of a request.
    pub fn resolve(&self, headers: &[(String, String)]) -> (r: Intake)
        ensures
            r@ == intake_of(self@, headers@),
    {
        let payload = match lookup_header(headers, self.assertion_header.as_str()) {
            None => None,
            Some(value) => match &self.assertion_scheme {
                Some(scheme) => strip_scheme(value, scheme.as_str()),
                None => Some(value),
            },
        };
        // The text may be wrapped into lines.
        let compact = match payload {
            None => String::new(),
            Some(s) => text::strip_white_space(s),
        };
        if compact.as_str().is_empty() {
            return Intake::Done(
                Outcome { resolution: IdentityResolution::NoAssertion, detail: None },
            );
        }
        judge_decoded(crypto::base64_decode(compact.as_str()))
    }

    /// The outcome for what validation said.
    pub fn conclude(&self, validated: Result<VerifiedAssertion, String>) -> (r: Outcome)
        ensures
            r@ == validated_outcome(self@, saml::assertion_or_text(validated)),
    {
        match validated {
            Ok(assertion) => Outcome {
                resolution: IdentityResolution::Resolved {
                    identity: self.build_identity(assertion),
                },
                detail: None,
            },
            Err(detail) => refuse(detail),
        }
    }

    /// Goes on from where validation stands.
    fn proceed<'a>(&'a self, validated: ValidateStep<'a>) -> (step: ResolveStep<'a>)
        ensures
            forall|canon: dsig::Canon| #[trigger]
                step.outcome(canon) == validated_outcome(self@, validated.outcome(canon)),
            match step {
                ResolveStep::Canonicalize(r) => validated matches ValidateStep::Canonicalize(v)
                    && r.remaining() == v.remaining(),
                ResolveStep::Done(_) => true,
            },
    {
        match validated {
            ValidateStep::Canonicalize(validation) => ResolveStep::Canonicalize(
                Resolving { plugin: self, validation },
            ),
            ValidateStep::Done(r) => ResolveStep::Done(self.conclude(r)),
        }
    }

    /// Goes on with what parsing the document gave, at the instant `now`.
    pub fn resolve_document<'a>(&'a self, parsed: &'a Result<Document, String>, now: i128) -> (step:
        ResolveStep<'a>)
        ensures
            forall|canon: dsig::Canon| #[trigger]
                step.outcome(canon) == document_outcome(
                    self@,
                    tree_or_text(*parsed),
                    now as int,
                    canon,
                ),
            step matches ResolveStep::Canonicalize(r) ==> *parsed matches Ok(doc) && r.remaining()
                == saml::canonicalizations(doc@),
    {
        match parsed {
            Err(e) => ResolveStep::Done(refuse(e.clone())),
            Ok(doc) => self.proceed(
                saml::validate(
                    doc,
                    &self.key,
                    slice_of(&self.idp_entity_id),
                    slice_of(&self.audience),
                    now,
                    self.clock_skew,
                    self.allow_unbounded_assertion_lifetime,
                ),
            ),
        }
    }
}

} // verus!
