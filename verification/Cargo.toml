[package]
name = "mac_inventory"
version = "0.1.0"
edition = "2021"
publish = false

[dependencies]
serde_json = "*"
rayon = "*"
redis = "*"
clap = { version = "*", features = ["derive"] }
