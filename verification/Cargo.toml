[package]
name = "miden_foundation"
version = "0.1.0"
edition = "2021"
publish = false

[dependencies]
miden-crypto = "=0.28.1"
miden-formatting = "=0.1.1"
miden-lifted-air = "=0.28.1"
miden-lifted-stark = "=0.28.1"
miden-serde-utils = "=0.28.1"
p3-security = "=0.7.0"
ruint = "=1.21.1"
smallvec = "=1.16.4"
semver = "1"
serde = { version = "1", features = ["derive"] }
thiserror = "2"
