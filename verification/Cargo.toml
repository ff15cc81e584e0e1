[package]
name = "miden_logic"
version = "0.1.0"
edition = "2021"
publish = false

[dependencies]
p3-field = "=0.8.0"
p3-goldilocks = "=0.8.0"
rand = "=0.10.3"
serde = { version = "=1.0.229", features = ["derive"] }
thiserror = "=2.0.21"
