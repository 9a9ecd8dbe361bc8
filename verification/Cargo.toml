[package]
name = "harbor"
version = "0.1.0"
edition = "2021"
publish = false

[dependencies]
flate2 = "=1.1.10"
prost = "=0.13.5"
geo = "=0.33.1"
earcutr = "=0.5.0"
gltf-json = { version = "=1.4.1", features = ["names"] }
anyhow = "=1.0.104"
tiny_http = "=0.12.0"
ureq = { version = "=2.12.1", default-features = false }
toml = "=0.8.23"
serde = { version = "=1.0.229", features = ["derive"] }
log = "=0.4.35"
env_logger = "=0.11.11"
osmpbfreader = "=0.19.1"
