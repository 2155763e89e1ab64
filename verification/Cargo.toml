[package]
name = "edgerouter_exporter"
version = "0.1.0"
edition = "2021"
publish = false

[dependencies]
anyhow = "*"
async-trait = "*"
axum = "*"
chrono = "*"
clap = { version = "*", features = ["derive", "env"] }
env_logger = "*"
futures = "*"
indexmap = { version = "*", features = ["serde"] }
log = "*"
prometheus-client = "*"
rsvici = "*"
serde = { version = "*", features = ["derive"] }
tokio = { version = "*", features = ["macros", "net", "process", "rt-multi-thread", "time"] }
