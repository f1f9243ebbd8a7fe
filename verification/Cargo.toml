[package]
name = "vanikey"
version = "0.1.0"
edition = "2021"
publish = false

[dependencies]
secp256k1 = { version = "0.27", features = ["rand-std", "global-context"] }
rand = "0.8"
clap = { version = "4", features = ["derive"] }

[dev-dependencies]
bech32 = "0.9"
