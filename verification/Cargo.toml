[package]
name = "blockchain"
version = "0.1.0"
edition = "2021"
publish = false

[dependencies]
chrono = { version = "0.4", features = ["serde"] }
nom = "*"
reqwest = { version = "*", default-features = false, features = ["blocking"] }
rust-crypto = "0.2.36"
serde = { version = "1", features = ["derive"] }
serde_derive = "1"
serde_json = "1"
