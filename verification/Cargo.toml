[package]
name = "vagga"
version = "0.1.0"
edition = "2021"
publish = false

[dependencies]
sha2 = "=0.11.0"
rustc-serialize = "=0.3.25"
quire = "=0.4.1"
serde = { version = "*", features = ["derive"] }
