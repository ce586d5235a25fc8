[package]
name = "swift_precompiled"
version = "0.1.0"
edition = "2021"
publish = false

[dependencies]
base64 = "=0.22.1"
clap = { version = "=4.6.7", features = ["derive"] }
colored = "=2.2.0"
fancy-regex = "=0.13.0"
glob = "=0.3.4"
path-absolutize = "=3.1.1"
serde = { version = "=1.0.229", features = ["derive"] }
toml = { version = "=0.8.23", features = ["preserve_order"] }
