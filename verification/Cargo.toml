[package]
name = "dcron"
version = "0.1.0"
edition = "2021"
publish = false

[dependencies]
job_scheduler = "1.2.1"
chrono = "0.4"
tokio = { version = "1", features = ["rt", "rt-multi-thread", "macros", "time"] }
mongodb = "*"
futures-util = "0.3"
serde = { version = "1", features = ["derive"] }
toml = "*"
rust-s3 = "*"
tonic = { version = "*", default-features = false }
clap = "*"
once_cell = "1"
anyhow = "1"
