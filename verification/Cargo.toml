[package]
name = "osm_changesets"
version = "0.1.0"
edition = "2021"
publish = false

[dependencies]
xml-rs = "=0.8.29"
flate2 = "=1.1.10"
chrono = "=0.4.45"
geo = { version = "=0.33.1", features = ["use-serde"] }
reqwest = { version = "=0.12.28", default-features = false, features = ["rustls-tls"] }
tokio = { version = "=1.54.1", features = ["macros", "rt-multi-thread", "fs", "time"] }
serde = { version = "=1.0.229", features = ["derive"] }
serde-xml-rs = "=0.8.2"
serde_yaml = "0.9.34"
anyhow = "=1.0.104"
log = "=0.4.35"
env_logger = "=0.11.11"
