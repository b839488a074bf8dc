[package]
name = "codechain-state"
version = "0.1.0"
edition = "2021"
publish = false

[dependencies]
cidr = { version = "=0.3.2", features = ["serde"] }
never-type = "=0.1.1"
serde = { version = "=1.0.229", features = ["derive"] }
serde_json = "=1.0.154"
