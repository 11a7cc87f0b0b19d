[package]
name = "tcp_stack"
version = "0.1.0"
edition = "2021"
publish = false

[dependencies]
anyhow = "1"
nix = { version = "0.26", default-features = false, features = ["poll"] }
rand = "0.8"
tun-tap = { version = "0.1", default-features = false }
