//! SAML 2.0 identity resolution.
//!
//! The identity of a caller is resolved from a SAML assertion that a header
//! carries. The XML signature of the assertion is verified against the
//! certificate of the identity provider that the operator has configured, never
//! against one that the message brings along; signature wrapping is ruled out;
//! the conditions (time and audience) and the issuer are checked; the subject
//! and the attributes become the identity. Any failure is refused with one and
//! the same reason, and its cause is kept for the logs.
//!
//! The library computes; it neither parses XML nor canonicalizes it. A caller
//! hands it a parsed [`document::Document`] and answers its requests for
//! canonical octets:
//!
//! 1. [`SamlIdentityPlugin::resolve`] takes the headers and gives the XML text
//!    to be parsed, or an outcome at once;
//! 2. [`SamlIdentityPlugin::resolve_document`] takes what parsing gave;
//! 3. as long as the step that comes back asks for octets, they are made with
//!    an exclusive canonicalizer that passes over every node for which
//!    [`c14n::is_visible`] is false, and handed to [`plugin::Resolving::resume`].
//!
//! What holds of the library as a whole is proved in [`laws`].

pub mod c14n;
pub mod config;
pub mod crypto;
pub mod document;
pub mod dsig;
pub mod instant;
pub mod laws;
pub mod plugin;
pub mod saml;
pub mod string_map;
pub mod text;

pub use config::{ConfigError, ResolutionConfig, SamlConfig};
pub use plugin::SamlIdentityPlugin;
