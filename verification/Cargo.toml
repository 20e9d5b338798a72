[package]
name = "waht"
version = "0.1.0"
edition = "2021"
publish = false

[dependencies]
anyhow = "1"
blake3 = "1"
bytes = { version = "1", features = ["serde"] }
clap = { version = "4", features = ["derive"] }
derive_more = "0.99"
dirs-next = "2"
ed25519-dalek = { version = "2", features = ["rand_core", "serde"] }
futures = "0.3"
hex = "0.4"
postcard = { version = "1", features = ["use-std"] }
quinn = "0.10"
rand = "0.8"
rcgen = "0.11"
rustls = { version = "0.21", features = ["dangerous_configuration"] }
rustls-pemfile = "1"
serde = { version = "1", features = ["derive"] }
socket2 = { version = "0.5", features = ["all"] }
thiserror = "1"
tokio = { version = "1", features = ["full"] }
tokio-util = { version = "0.7", features = ["full"] }
tracing = "0.1"
tracing-subscriber = "0.3"
webpki-roots = "0.23"
