[package]
name = "abrasive"
version = "0.1.0"
edition = "2021"
publish = false

[dependencies]
blake3 = "1"
sha2 = "0.10"
time = { version = "0.3", features = ["parsing"] }
bincode = "1"
serde = { version = "1", features = ["derive"] }
serde_json = "1"
toml = "0.8"
thiserror = "1"
log = "0.4"
env_logger = "0.11"
zip = { version = "0.6", default-features = false }
zstd = "0.13"
tempfile = "3"
walkdir = "2"
ignore = "0.4"
rayon = "1"
rustls = { version = "0.23", default-features = false, features = ["ring", "std", "tls12", "logging"] }
rustls-pemfile = "2"
tungstenite = "0.21"
ureq = { version = "2", features = ["json"] }
clap = { version = "4", features = ["derive"] }
