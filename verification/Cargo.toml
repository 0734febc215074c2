[package]
name = "saml_identity"
version = "0.1.0"
edition = "2021"
publish = false

[dependencies]
base64 = "=0.22.1"
libxml = "=0.3.23"
rsa = "=0.9.10"
sha1 = { version = "=0.10.7", features = ["oid"] }
sha2 = { version = "=0.10.9", features = ["oid"] }
x509-cert = { version = "=0.2.5", features = ["pem"] }
time = { version = "=0.3.55", features = ["parsing", "formatting"] }
serde = { version = "=1.0.229", features = ["derive"] }
serde_json = "=1.0.154"
thiserror = "=2.0.21"
tracing = "=0.1.44"
metrics = "=0.24.6"
async-trait = "=0.1.92"
