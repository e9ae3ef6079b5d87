[package]
name = "jet_lag_core"
version = "0.1.0"
edition = "2021"
publish = false

[dependencies]
naga = { version = "=30.0.1", features = ["wgsl-in"] }
naga_oil = "*"
twox-hash = "=2.1.5"
geo = "=0.33.1"
serde = { version = "=1.0.229", features = ["derive"] }
chrono = { version = "=0.4.45", default-features = false }
serde_json = "=1.0.154"
anyhow = "=1.0.104"
eyre = "=0.6.14"
clap = { version = "=4.6.7", features = ["derive"] }
walkdir = "=2.5.0"
flate2 = "=1.1.10"
geojson = "=1.0.0"
prost = "=0.14.4"
bytes = "=1.12.1"
futures-core = "=0.3.34"
futures-util = "=0.3.34"
reqwest = { version = "=0.13.5", default-features = false, features = ["json", "stream"] }
tokio = { version = "=1.54.1", features = ["rt-multi-thread", "net", "sync"] }
axum = "=0.8.9"
tower-http = { version = "=0.7.1", features = ["cors"] }
pmtiles = "=0.25.0"
