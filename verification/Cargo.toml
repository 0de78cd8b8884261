[package]
name = "mediatools"
version = "0.1.0"
edition = "2021"
publish = false

[dependencies]
anyhow = "1"
clap = { version = "4", features = ["derive"] }
lazy-regex = "3"
log = "0.4"
simplelog = { version = "0.12", features = ["paris"] }
