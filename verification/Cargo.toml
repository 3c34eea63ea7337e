[package]
name = "osm_rust"
version = "0.1.0"
edition = "2021"
publish = false

[dependencies]
bincode = "1"
chrono = "0.4"
csv = "1"
env_logger = "0.11"
geo = "0.28"
log = "0.4"
polars = { version = "0.43", default-features = false, features = ["lazy", "parquet"] }
quick-xml = "0.36"
rand = { version = "0.8", features = ["small_rng"] }
rayon = "1"
reqwest = { version = "0.12", default-features = false, features = ["blocking", "rustls-tls"] }
serde = { version = "1", features = ["derive"] }
serde_json = "1"
