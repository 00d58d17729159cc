[package]
name = "envlock"
version = "0.1.0"
edition = "2021"
publish = false

[dependencies]
age = "=0.10.1"
dotenvy = "=0.15.7"
anyhow = "=1.0.104"
clap = { version = "=4.6.7", features = ["derive"] }
clap_complete = "=4.6.11"
rpassword = "=7.5.4"

[dev-dependencies]
bech32 = "=0.9.1"
x25519-dalek = { version = "=2.0.1", features = ["static_secrets"] }
