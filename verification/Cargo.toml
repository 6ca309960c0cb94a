[package]
name = "nearhand"
version = "0.1.0"
edition = "2021"
publish = false

[dependencies]
anyhow = "1"
argon2 = "0.6"
axum = { version = "0.8", features = ["ws", "multipart", "macros"] }
axum-server = { version = "*", features = ["tls-rustls-no-provider"] }
bytes = "=1.12.1"
clap = { version = "4", features = ["derive"] }
futures-util = "0.3"
postcard = { version = "1", features = ["use-std"] }
quinn = { version = "0.11", default-features = false, features = ["runtime-tokio", "rustls-ring"] }
rcgen = { version = "=0.14.10", default-features = false, features = ["ring", "pem"] }
ring = "=0.17.14"
rustls = { version = "0.23", default-features = false, features = ["ring", "std", "logging", "tls12"] }
serde = { version = "1", features = ["derive"] }
serde_json = "1"
sqlx = { version = "0.8", default-features = false, features = ["runtime-tokio", "sqlite", "migrate", "macros"] }
thiserror = "2"
time = "0.3"
tokio = { version = "1", features = ["full"] }
toml = "=1.1.8"
tracing = "0.1"
tracing-subscriber = "0.3"
web-transport-quinn = { version = "*", default-features = false, features = ["ring"] }
