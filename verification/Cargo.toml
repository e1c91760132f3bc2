[package]
name = "sentinelx"
version = "0.1.0"
edition = "2021"
publish = false

[dependencies]
base64 = "0.22"
chrono = { version = "0.4", features = ["serde"] }
clap = { version = "4", features = ["derive"] }
flate2 = "1"
futures-util = "0.3"
glob = "0.3"
grep-matcher = "0.1"
grep-regex = "0.1"
grep-searcher = "0.1"
http = "1"
ignore = "0.4"
nix = { version = "*", features = ["signal", "process", "user", "fs"] }
rand = "0.10"
regex = "1"
reqwest = { version = "0.12", default-features = false, features = ["rustls-tls", "stream"] }
serde = { version = "1", features = ["derive"] }
serde_json = "1"
sha2 = "0.10"
shlex = "1"
similar = "2"
soft-canonicalize = "*"
tar = "0.4"
tokio = { version = "1", features = ["full"] }
tokio-tungstenite = { version = "*", features = ["rustls-tls-webpki-roots"] }
tokio-util = "0.7"
toml = "*"
url = "2"
walkdir = "2"
yaml_serde = "*"
