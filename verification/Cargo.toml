[package]
name = "rds_proxy"
version = "0.1.0"
edition = "2021"
publish = false

[dependencies]
aws-config = "1"
aws-credential-types = "1"
aws-sigv4 = "1"
byteorder = "1"
bytes = "1"
clap = { version = "4", features = ["cargo"] }
color-eyre = "0.6"
config = "0.14"
eyre = "0.6"
fallible-iterator = "0.2"
futures = "0.3"
memchr = "2"
postgres-protocol = "0.6"
rustls = { version = "0.23", default-features = false, features = ["ring", "std", "tls12", "logging"] }
rustls-pemfile = "1"
serde = { version = "1", features = ["derive"] }
serde_derive = "1"
tokio = { version = "1", features = ["full"] }
tokio-rustls = { version = "0.26", default-features = false, features = ["ring", "tls12", "logging"] }
tokio-stream = "0.1"
tokio-util = { version = "0.7", features = ["codec"] }
tracing = "0.1"
tracing-subscriber = { version = "0.3", features = ["env-filter"] }
url = "2"
