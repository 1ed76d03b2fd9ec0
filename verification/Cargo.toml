[package]
name = "sigma_rust"
version = "0.7.2"
edition = "2021"
publish = false

[dependencies]
yaml_serde = "=0.10.7"
serde_json = "=1.0.154"
serde = { version = "=1.0.229", features = ["derive"] }
regex = "=1.13.1"
cidr = "=0.3.2"
chrono = "=0.4.45"
base64 = "0.23.1"

[dev-dependencies]
chrono = "=0.4.45"
