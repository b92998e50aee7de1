[package]
name = "workload"
version = "0.1.0"
edition = "2021"
publish = false

[dependencies]
rand = "0.10"
rand_xoshiro = "0.8"
clap = { version = "4", features = ["derive"] }
tracing-subscriber = { version = "0.3", features = ["env-filter"] }
