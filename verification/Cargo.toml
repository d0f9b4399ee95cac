[package]
name = "plugx-config"
version = "0.3.0"
edition = "2021"
publish = false

[dependencies]
anyhow = "=1.0.104"
dotenv-parser = "=0.1.3"
plugx-input = { version = "=0.3.1", features = ["schema"] }
serde = { version = "=1.0.229", features = ["derive"] }
serde_json = "=1.0.154"
serde_qs = "=1.1.3"
serde_yaml = "=0.9.34"
thiserror = "=1.0.69"
toml = "=1.1.8"
url = { version = "=2.5.8", features = ["serde"] }
