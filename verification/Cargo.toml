[package]
name = "rustpipe"
version = "0.1.0"
edition = "2021"
publish = false

[dependencies]
petgraph = "0.6"
sha2 = "0.10"
serde = { version = "1", features = ["derive"] }
serde_yaml = "0.9"
serde_json = "1"
tokio = { version = "1", features = ["full"] }
axum = { version = "0.7", features = ["ws"] }
clap = { version = "4", features = ["derive"] }
colored = "2"
anyhow = "1"
thiserror = "1"
sqlx = { version = "0.8", default-features = false, features = ["runtime-tokio", "sqlite", "migrate", "macros"] }
reqwest = { version = "0.12", default-features = false, features = ["json", "rustls-tls"] }
bollard = "0.17"
futures-util = "0.3"
chrono = "0.4"
rayon = "1"
memmap2 = "0.9"
hyper = { version = "1", features = ["client", "http1"] }
hyper-util = { version = "0.1", features = ["full"] }
hyper-rustls = { version = "0.27", default-features = false, features = ["ring", "http1", "native-tokio", "tls12", "logging"] }
http-body-util = "0.1"
rustls = { version = "0.23", default-features = false, features = ["ring", "std", "tls12", "logging"] }
rustls-pemfile = "2"
rcgen = "0.13"
tokio-rustls = { version = "0.26", default-features = false, features = ["ring", "logging", "tls12"] }
tower-http = { version = "0.5", features = ["trace", "timeout"] }
tracing = "0.1"
tracing-subscriber = { version = "0.3", features = ["env-filter", "json"] }
prometheus = "0.13"
