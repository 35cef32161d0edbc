[package]
name = "dataloader"
version = "0.1.0"
edition = "2021"
publish = false

[dependencies]
rand = "=0.10.3"
regex = "=1.13.1"
serde_json = "=1.0.151"
rayon = "=1.12.0"
gestalt_ratio = "=0.2.1"
serde = { version = "1", features = ["derive"] }
