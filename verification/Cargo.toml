[package]
name = "protoduck"
version = "0.1.0"
edition = "2021"
publish = false

[dependencies]
base64 = "=0.23.1"
chrono = "=0.4.45"
duckdb = { version = "=1.20000.1", features = ["vscalar", "vscalar-arrow", "loadable-extension"] }
prost = "=0.14.4"
prost-reflect = { version = "=0.16.5", features = ["serde"] }
protox = "=0.10.0"
serde = "=1.0.229"
serde_json = "=1.0.154"
thiserror = "=2.0.21"
