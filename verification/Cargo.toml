[package]
name = "gac"
version = "0.1.0"
edition = "2021"
publish = false

[dependencies]
aes-gcm = "*"
argon2 = { version = "*", features = ["std"] }
base64 = "*"
glob = "*"
regex = "1"
anyhow = "1"
chrono = "*"
clap = { version = "4", features = ["derive", "env"] }
console = "*"
convert_case = "*"
dialoguer = "*"
dirs = "*"
futures-util = "*"
indicatif = "*"
reqwest = { version = "0.12", default-features = false, features = ["json", "stream", "rustls-tls"] }
serde = { version = "1", features = ["derive"] }
serde_json = "1"
tokio = { version = "1", features = ["macros", "rt-multi-thread", "time"] }
toml = "*"
tracing = "*"
tracing-subscriber = { version = "*", features = ["env-filter"] }
