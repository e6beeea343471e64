[package]
name = "riauth"
version = "0.1.0"
edition = "2021"
publish = false

[dependencies]
url = "=2.5.8"
base64 = "=0.22.1"
sha2 = "=0.11.1"
sha1 = "=0.11.0"
md-5 = "=0.11.0"
hmac = "=0.13.0"
psl = "=2.1.246"
time = { version = "=0.3.55", features = ["parsing", "formatting"] }
x509-parser = "=0.18.1"
rustls = { version = "=0.23.46", default-features = false, features = ["std", "aws_lc_rs"] }
serde = { version = "=1.0.229", features = ["derive"] }
serde_json = "=1.0.154"
anyhow = "=1.0.104"
tokio = { version = "=1.54.1", features = ["rt-multi-thread", "net", "time", "macros", "io-util", "sync"] }
reqwest = { version = "=0.12.28", default-features = false, features = ["blocking", "json", "stream", "rustls-tls-webpki-roots-no-provider"] }
axum = "=0.8.9"
ldap3_proto = "=0.9.0"
lettre = { version = "=0.11.23", default-features = false, features = ["builder", "smtp-transport", "hostname", "rustls", "aws-lc-rs", "webpki-roots"] }
postgres = "=0.19.14"
rand = "=0.10.3"
clap = { version = "=4.6.7", features = ["derive"] }
jsonwebtoken = { version = "=11.1.0", default-features = false, features = ["rust_crypto"] }
serde_urlencoded = "=0.7.1"
webauthn-rs = { version = "=0.5.5", features = ["danger-allow-state-serialisation", "conditional-ui"] }
tracing = "=0.1.44"
tokio-util = { version = "=0.7.20", features = ["codec"] }
futures-util = "=0.3.34"
hyper = { version = "=1.12.0", features = ["http1", "server"] }
hyper-util = { version = "=0.1.21", features = ["tokio"] }
tokio-rustls = { version = "=0.26.4", default-features = false, features = ["tls12"] }
