[package]
name = "redis_async"
version = "0.1.0"
edition = "2021"
publish = false

[dependencies]
anyhow = "1"
bytes = "1"
clap = { version = "4", features = ["derive"] }
clap-verbosity-flag = "*"
colored = "*"
shlex = "1"
thiserror = "*"
tokio = { version = "1", features = ["rt", "net", "io-util", "macros"] }
