[package]
name = "http_diff"
version = "0.1.0"
edition = "2021"
publish = false

[dependencies]
similar = "*"
url = "*"
uuid = { version = "*", features = ["v4"] }
rand = "*"
serde = { version = "*", features = ["derive"] }
serde_json = "*"
tokio = { version = "*", features = ["rt-multi-thread", "macros", "process", "io-util", "sync", "time", "fs"] }
reqwest = { version = "*", default-features = false, features = ["json"] }
clap = { version = "*", features = ["derive"] }
chrono = "*"
notify = "*"
num_cpus = "*"
