[package]
name = "tx"
version = "0.1.0"
edition = "2021"
publish = false

[dependencies]
async-channel = "*"
csv = "1"
futures-lite = "*"
num_cpus = "*"
serde = { version = "1", features = ["derive"] }
structopt = "0.3"
