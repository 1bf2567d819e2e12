[package]
name = "ddns6"
version = "0.1.0"
edition = "2021"
publish = false

[dependencies]
async-trait = "0.1"
base64 = "0.12"
byteorder = "1"
bytes = "0.5"
futures = "0.3"
hyper = "0.13"
hyper-tls = "0.4"
native-tls = "0.2"
serde = { version = "1", features = ["derive"] }
tokio = { version = "0.2", features = ["full"] }
toml = "0.5"
tower = "0.3"
