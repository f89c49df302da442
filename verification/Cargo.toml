[package]
name = "stable_channels"
version = "0.1.0"
edition = "2021"
publish = false

[dependencies]
ureq = "2"
toml = "*"
serde = { version = "1", features = ["derive"] }
dirs-next = "2"
hex = "*"
ldk-node = "0.4"
