[package]
name = "glp"
version = "0.1.0"
edition = "2021"
publish = false

[dependencies]
chrono = "*"
clap = "*"
colored = "*"
futures = "*"
humantime = "*"
json = "*"
reqwest = { version = "*", default-features = false, features = ["rustls-tls"] }
timeago = "*"
tokio = { version = "*", default-features = false, features = ["rt-multi-thread", "macros", "sync", "fs"] }
