[package]
name = "fakeset"
version = "0.1.0"
edition = "2021"
publish = false

[dependencies]
anyhow = "1"
arrow = { version = "=59.3.2", default-features = false, features = ["csv", "json"] }
chrono = "=0.4.45"
fake = { version = "=5.1.0", features = ["chrono", "uuid", "semver"] }
fixedbitset = "=0.5.7"
parquet = { version = "=59.3.2", default-features = false, features = ["arrow"] }
petgraph = "=0.8.3"
semver = "1"
serde = { version = "1", features = ["derive"] }
serde_json = "1"
serde_yaml = "0.9"
uuid = "1"
walkdir = "2"
