[package]
name = "authproxy"
version = "0.1.0"
edition = "2021"
publish = false

[dependencies]
base64 = "*"
clap = { version = "*", features = ["derive"] }
http-body-util = "*"
hyper = { version = "*", features = ["client", "server", "http1"] }
hyper-util = { version = "*", features = ["tokio"] }
tokio = { version = "*", features = ["net", "rt-multi-thread", "macros", "io-util"] }
