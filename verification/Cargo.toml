[package]
name = "passgen"
version = "0.1.0"
edition = "2021"
publish = false

[dependencies]
anyhow = "1"
clap = { version = "4", features = ["derive"] }
pwhash = "1"
rand = "0.8"
rand_xorshift = "0.3"
