[package]
name = "tpu_monitor"
version = "0.1.0"
edition = "2021"
publish = false

[dependencies]
anyhow = "1"
clap = { version = "4", features = ["derive"] }
comfy-table = "7"
crossterm = "0.28"
prost = "0.13"
ratatui = "0.29"
sysinfo = "0.33"
tokio = { version = "1", features = ["rt", "net", "time"] }
tonic = "0.12"
