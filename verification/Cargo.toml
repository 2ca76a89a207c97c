[package]
name = "datafusion_distributed"
version = "0.1.0"
edition = "2021"
publish = false

[dependencies]
arrow-flight = "=58.4.1"
bytes = "=1.12.1"
chrono = "=0.4.45"
dashmap = "=6.2.1"
datafusion = { version = "=53.1.0", default-features = false, features = ["parquet", "sql"] }
futures = "=0.3.34"
http = "=1.5.0"
log = "=0.4.35"
prost = "=0.14.4"
serde = { version = "=1.0.229", features = ["derive"] }
serde_json = "=1.0.154"
structopt = "=0.3.26"
tokio = { version = "=1.54.1", features = ["full"] }
tokio-stream = { version = "=0.1.19", features = ["net"] }
tonic = "=0.14.9"
uuid = { version = "=1.29.0", features = ["v4"] }
