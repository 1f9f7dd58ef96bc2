[package]
name = "kube_forward"
version = "0.6.0"
edition = "2021"
publish = false

[dependencies]
rand = "0.9"
serde = { version = "1", features = ["derive"] }
serde_yaml = "0.9"
humantime-serde = "1"
thiserror = "2"
anyhow = "1"
kube = { version = "1", features = ["ws"] }
k8s-openapi = { version = "0.25", features = ["latest"] }
tokio = { version = "1", features = ["full"] }
tokio-stream = { version = "0.1", features = ["net"] }
tokio-util = "0.7"
futures = "0.3"
socket2 = "0.5"
chrono = "0.4"
clap = { version = "4", features = ["derive"] }
ctrlc = "3"
inquire = "0.7"
metrics = "0.24"
metrics-exporter-prometheus = { version = "0.17", default-features = false, features = ["http-listener"] }
rustls = { version = "0.23", default-features = false, features = ["ring", "std"] }
tracing = "0.1"
tracing-subscriber = { version = "0.3", features = ["env-filter"] }
