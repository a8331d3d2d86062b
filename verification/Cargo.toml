[package]
name = "confish"
version = "0.3.0"
edition = "2021"
publish = false

[dependencies]
hex = "0.4"
hmac = "0.12"
sha2 = "0.10"
serde = { version = "1", features = ["derive"] }
serde_json = "1"
thiserror = "2"
reqwest = { version = "0.12", default-features = false, features = ["json", "rustls-tls"] }
tokio = { version = "1", features = ["rt", "rt-multi-thread", "macros", "time", "sync"] }
tokio-util = "0.7"
tracing-core = "0.1"
tracing-subscriber = { version = "0.3", default-features = false, features = ["std", "registry"] }

[dev-dependencies]
percent-encoding = "2"
