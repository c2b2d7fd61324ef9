[package]
name = "u_forge_ai"
version = "0.1.0"
edition = "2021"
publish = false

[dependencies]
fst = "=0.4.7"
regex = "=1.13.1"
uuid = { version = "=1.27.0", features = ["v4"] }
chrono = "=0.4.45"
serde = { version = "=1.0.229", features = ["derive"] }
serde_json = "=1.0.151"
