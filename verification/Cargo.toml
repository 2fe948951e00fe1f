[package]
name = "qca_core"
version = "0.1.0"
edition = "2021"
publish = false

[dependencies]
chrono = "*"
clap = "*"
indicatif = "*"
log = "*"
nalgebra = "*"
serde = { version = "*", features = ["derive"] }
serde-inline-default = "*"
serde_json = "*"
serde_repr = "*"
tar = "*"
tokio = { version = "*", features = ["sync"] }
