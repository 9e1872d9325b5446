[package]
name = "ha_node"
version = "0.1.0"
edition = "2021"
publish = false

[dependencies]
anyhow = "=1.0.104"
clap = { version = "=3.2.25", features = ["derive"] }
futures = "=0.3.34"
http = "=0.2.12"
humantime = "=2.4.0"
once_cell = "=1.21.4"
opentelemetry = "=0.19.0"
prost = "=0.11.9"
serde = { version = "=1.0.229", features = ["derive"] }
serde_json = "=1.0.154"
structopt = "=0.3.26"
tokio = { version = "=1.54.1", features = ["macros", "rt-multi-thread", "sync", "time"] }
tonic = "=0.8.3"
tracing = "=0.1.44"
uuid = "=1.29.0"
