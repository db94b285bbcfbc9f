[package]
name = "tripletgen"
version = "0.1.0"
edition = "2021"
publish = false

[dependencies]
crossbeam = "=0.8.5"
csv = "=1.4.0"
dotenvy = "=0.15.7"
kiddo = "=4.2.1"
osrm-binding = "=1.0.0"
rand = "=0.10.3"
rayon = "=1.12.0"
serde = { version = "=1.0.229", features = ["derive"] }
serde_json = "=1.0.151"
