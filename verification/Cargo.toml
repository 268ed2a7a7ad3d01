[package]
name = "dsh_desktop"
version = "0.1.0"
edition = "2021"
publish = false

[dependencies]
semver = "1"
regex = "1"
rand = "0.8"
reqwest = { version = "0.12", default-features = false }
serde = { version = "1", features = ["derive"] }
serde_json = "1"
log = "0.4"
dunce = "1"
futures-util = "0.3"
tokio = { version = "1", features = ["net", "io-util", "rt", "time", "macros"] }
