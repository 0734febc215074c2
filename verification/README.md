# saml_identity

SAML 2.0 identity resolution, verified with Verus.

The identity of a caller is resolved from a SAML assertion (or a response around
one) that a header carries in base64. The library verifies the XML signature of
the assertion against the configured certificate of the identity provider, rules
out signature wrapping, checks issuer, validity window and audience, and maps
the subject and the attributes to an identity. Any failure is answered with
`invalid SAML assertion`; the cause is kept for the logs.

## Layout

| Path | What it holds |
|---|---|
| `src/document.rs` | XML documents as plain values, and lookups in them |
| `src/c14n.rs` | requests for canonical octets; which nodes take part in them |
| `src/dsig.rs` | verification of XML signatures |
| `src/saml.rs` | validation of assertions |
| `src/config.rs` | configurations, their defaults and errors |
| `src/plugin.rs` | from headers to an identity |
| `src/crypto.rs`, `src/instant.rs` | calls into the crates for base64, digests, RSA, certificates and timestamps |
| `src/text.rs`, `src/string_map.rs` | strings, and maps with string keys |
| `src/laws/` | what holds of the library as a whole |
| `app/` | parsing and canonicalization with libxml2, JSON, logs and metrics |
| `tests/` | tests |

## How a caller drives it

The library neither parses XML nor canonicalizes it. Verification, validation and
resolution are step machines: a step is either done or asks for the canonical
octets of a subtree, and goes on with the reply. The contract of a step is stated
for every canonicalizer at once: with `canon` for the function that gives the
octets, the result of each machine is a function of the document, the key, the
terms and `canon`, and each resumption with `canon`'s reply keeps that result.

## What is trusted

The results of base64 and PEM decoding, SHA-256, SHA-1, RSA verification, certificate
reading and RFC 3339 parsing are named, not described: the contracts say that the
library asks for the right thing and does the right thing with every answer.
