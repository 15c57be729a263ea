[package]
name = "nix_code"
version = "0.1.0"
edition = "2021"
publish = false

[dependencies]
url = "=2.5.8"
chrono = "=0.4.45"
clap = { version = "=4.6.7", features = ["derive"] }
dirs = "=7.0.0"
flate2 = "=1.1.10"
gix-config = { version = "=0.61.0", features = ["sha1"] }
reqwest = { version = "=0.13.5", default-features = false, features = ["blocking"] }
serde_yaml = "=0.9.34"
ssh2 = "=0.9.6"
ssh2-config = "=0.8.1"
tar = "=0.4.46"
