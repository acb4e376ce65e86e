[package]
name = "ankaios_agent"
version = "0.1.0"
edition = "2021"
publish = false

[dependencies]
prost = "0.11"
sha256 = { version = "1", default-features = false }
podman-api = { version = "0.10", default-features = false }
tokio = { version = "1", features = ["full"] }
log = "0.4"
