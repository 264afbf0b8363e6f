[package]
name = "scx_agentic"
version = "0.1.0"
edition = "2021"
publish = false

[dependencies]
anyhow = "=1.0.104"
clap = { version = "=4.6.7", features = ["derive"] }
libbpf-rs = "=0.26.1"
log = "0.4"
procfs = "=0.18.0"
serde = { version = "1", features = ["derive"] }
simplelog = "=0.12.2"
