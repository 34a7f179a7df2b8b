[package]
name = "kinegraph"
version = "0.1.0"
edition = "2021"
publish = false

[dependencies]
lz4 = "1"
uuid = { version = "1", features = ["v4", "serde"] }
chrono = "0.4"
serde = { version = "1", features = ["derive"] }
log = "0.4"
env_logger = "*"
tokio = { version = "1", features = ["sync", "rt", "macros"] }
futures = "0.3"
bytemuck = { version = "1", features = ["derive"] }
wgpu = "*"
