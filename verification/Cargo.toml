[package]
name = "exonum_rng"
version = "0.1.0"
edition = "2021"
publish = false

[dependencies]
exonum = "=0.9.7"
exonum-configuration = "=0.9.3"
failure = "=0.1.8"
gmp-mpfr-sys = { version = "1", default-features = false, features = ["use-system-libs"] }
rand = "=0.8.8"
rug = { version = "=1.19.2", default-features = false, features = ["integer"] }
serde = "=1.0.229"
serde_derive = "=1.0.229"
sha2 = "=0.8.2"
vdf = "=0.1.0"
