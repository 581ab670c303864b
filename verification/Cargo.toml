[package]
name = "bgumcl"
version = "1.3.30"
edition = "2021"
publish = false

[dependencies]
async-speed-limit = "*"
async-trait = "0.1"
chrono = { version = "0.4", default-features = false, features = ["clock"] }
futures = "0.3"
log = "0.4"
rand = "0.9"
regex = "1"
reqwest = { version = "0.12", default-features = false, features = ["json", "stream", "rustls-tls"] }
reqwest-middleware = "0.4"
reqwest-retry = "0.7"
sanitize-filename = "0.6"
semver = "1"
serde = { version = "1", features = ["derive"] }
serde_json = "1"
tokio = { version = "1", features = ["fs", "io-util", "macros", "rt", "rt-multi-thread", "sync", "time"] }
tokio-util = { version = "0.7", features = ["compat", "io"] }
url = "2"
urlencoding = "2"
uuid = { version = "1", features = ["v5"] }
zip = { version = "2", default-features = false, features = ["deflate"] }
