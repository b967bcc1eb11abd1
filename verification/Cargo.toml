[package]
name = "at2_node"
version = "0.1.0"
edition = "2021"
publish = false

[dependencies]
chrono = "=0.4.45"
bincode = "=1.3.3"
tokio = { version = "=1.53.2", features = ["full"] }
structopt = "=0.3.26"
