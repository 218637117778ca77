[package]
name = "dquic"
version = "0.1.0"
edition = "2021"
publish = false

[dependencies]
bytes = "=1.12.1"
dashmap = "=6.2.1"
der = { version = "=0.7.10", features = ["std"] }
dns-lookup = "=4.0.2"
futures = "=0.3.34"
pkix-path = "=0.3.2"
pkix-revocation = { version = "=0.3.3", features = ["ocsp"] }
proc-macro2 = "=1.0.107"
quote = "=1.0.47"
rand = "=0.10.3"
rustls = { version = "=0.23.46", default-features = false, features = ["std", "ring"] }
signature = "=2.2.0"
spki = "=0.7.3"
syn = { version = "=2.0.119", features = ["full", "extra-traits"] }
tokio = { version = "=1.54.1", features = ["sync", "time", "rt", "net"] }
tokio-util = { version = "=0.7.20", features = ["rt"] }
tracing = "=0.1.44"
x509-cert = "=0.2.5"
x509-parser = "=0.17.0"
