[package]
name = "ipa"
version = "0.1.0"
edition = "2021"
publish = false

[dependencies]
clap = { version = "4", features = ["derive"] }
comfy-table = "6"
rand = "0.8"
rand_chacha = "0.3"
rand_distr = "0.4"
tracing = "0.1"
