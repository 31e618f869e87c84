[package]
name = "gitstats"
version = "0.1.0"
edition = "2021"
publish = false

[dependencies]
chrono = { version = "0.4", default-features = false, features = ["std"] }
git2 = { version = "0.20", default-features = false }
num_cpus = "1"
tokio = { version = "1", features = ["rt-multi-thread", "sync", "macros", "time"] }

[dev-dependencies]
tempfile = "3"
