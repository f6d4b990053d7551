[package]
name = "dns_secheck"
version = "0.1.0"
edition = "2021"
publish = false

[dependencies]
data-encoding = "2"
hickory-proto = "0.25"
hickory-client = "0.25"
hickory-resolver = "0.25"
hickory-server = "0.25"
rand = "*"
chrono = { version = "0.4", default-features = false, features = ["clock", "serde"] }
serde = { version = "1", features = ["derive"] }
serde_json = "1"
tokio = { version = "1", features = ["full"] }
clap = { version = "4", features = ["derive", "cargo", "env"] }
moka = { version = "0.12", features = ["future"] }
actix-web = { version = "4", default-features = false, features = ["macros"] }
reqwest = { version = "0.12", default-features = false }
