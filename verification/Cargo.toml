[package]
name = "tracklog"
version = "0.1.0"
edition = "2021"
publish = false

[dependencies]
chrono = { version = "0.4", features = ["serde"] }
clap = { version = "4", features = ["derive"] }
env_logger = "*"
geo = "*"
geojson = "*"
glob = "0.3"
log = "0.4"
serde = { version = "1", features = ["derive"] }
serde_json = "1"
