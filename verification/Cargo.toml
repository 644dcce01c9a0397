[package]
name = "glass"
version = "0.1.0"
edition = "2021"
publish = false

[dependencies]
anyhow = "=1.0.104"
async-trait = "=0.1.92"
chrono = "=0.4.45"
env_logger = "=0.10.2"
http = "=0.2.12"
hyper = { version = "=0.14.32", features = ["full"] }
log = "=0.4.34"
structopt = "=0.3.26"
tokio = { version = "=1.53.2", features = ["full"] }
wasmtime = "=48.0.5"
