[package]
name = "opinion_sim"
version = "0.1.0"
edition = "2021"
publish = false

[dependencies]
rand = "0.8"
anyhow = "1"
clap = { version = "4", features = ["derive"] }
clap-verbosity-flag = "2"
console = "0.15"
indicatif = "0.17"
itertools = "0.12"
pgfplots = "0.5"
serde = { version = "1", features = ["derive"] }
serde_json = "1"
thiserror = "1"
