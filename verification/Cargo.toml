[package]
name = "bridge_pool_relayer"
version = "0.1.0"
edition = "2021"
publish = false

[dependencies]
tiny-keccak = { version = "*", features = ["keccak"] }
serde = { version = "*", features = ["derive"] }
serde_json = "*"
owo-colors = "*"
