[package]
name = "exposurelib"
version = "0.1.0"
edition = "2021"
publish = false

[dependencies]
aes = "*"
anyhow = "*"
chrono = { version = "*", features = ["serde"] }
clap = { version = "*", features = ["cargo"] }
crossbeam = "*"
fern = { version = "*", features = ["colored"] }
futures = "*"
log = "*"
petgraph = { version = "*", features = ["serde-1"] }
ring = "*"
serde = { version = "*", features = ["derive"] }
serde_yaml = "*"
signal-hook = "*"
tarpc = { version = "*", features = ["full"] }
thiserror = "*"
tokio = { version = "*", features = ["full"] }
