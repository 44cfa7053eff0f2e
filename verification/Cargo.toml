[package]
name = "rgb_validation"
version = "0.1.0"
edition = "2021"
publish = false

[dependencies]
amplify = "=4.5.1"
bp-core = "=0.10.11"
commit_verify = "=0.10.6"
single_use_seals = "=0.10.1"
strict_encoding = "=2.6.2"
strict_encoding_derive = "=2.0.1"
strict_types = "=1.6.3"

[dev-dependencies]
commit_verify = { version = "=0.10.6", features = ["rand"] }
