[package]
name = "nix_mirror"
version = "0.1.0"
edition = "2021"
publish = false

[dependencies]
sha2 = "*"
nix-base32 = "*"
path-clean = "*"
reqwest = { version = "*", default-features = false, features = ["stream"] }
tokio = { version = "*", features = ["rt-multi-thread", "macros", "fs", "io-util"] }
futures = "*"
eyre = "*"
structopt = "*"
indicatif = "*"
tempfile = "*"
xz2 = "*"
