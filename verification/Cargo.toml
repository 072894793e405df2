[package]
name = "wse_trader"
version = "0.1.0"
edition = "2021"
publish = false

[dependencies]
table-extract = "*"
actix-web = "4"
clap = { version = "4", features = ["derive"] }
colored = "*"
csv = "*"
env_logger = "*"
futures = "*"
log = "*"
reqwest = { version = "0.12", default-features = false, features = ["json", "rustls-tls"] }
serde = { version = "1", features = ["derive"] }
serde_any = "*"
serde_json = "1"
serde_qs = "0.13"
serde_yaml = "0.9"
struct-field-names-as-array = "*"
thiserror = "1"
tokio = { version = "1", features = ["macros", "rt-multi-thread"] }
toml = "0.8"

[dev-dependencies]
regex = "*"
