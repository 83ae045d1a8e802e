[package]
name = "skein"
version = "0.1.0"
edition = "2021"
publish = false

[dependencies]
blake3 = "1"
half = "2"
memmap2 = "0.9"
serde = { version = "1", features = ["derive"] }
serde_json = "1"
thiserror = "1"
tokio = { version = "1", features = ["sync", "time", "rt"] }
toml = "0.8"
tracing = "0.1"
cudarc = { version = "0.17", default-features = false, features = ["std", "driver", "nvrtc", "cuda-12080", "dynamic-loading"] }
