[package]
name = "riteed"
version = "0.3.1"
edition = "2021"
publish = false

[dependencies]
similar = { version = "=2.7.0", features = ["unicode"] }
gettext-rs = { version = "=0.7.7", features = ["gettext-system"] }

[dev-dependencies]
proptest = "=1.12.0"
