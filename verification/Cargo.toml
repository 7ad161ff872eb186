[package]
name = "background_jobs"
version = "0.5.1"
edition = "2021"
publish = false

[dependencies]
chrono = "0.4"
serde_json = "1"
num_cpus = "1"
serde = { version = "1", features = ["derive"] }
sled = "*"
