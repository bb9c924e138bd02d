[package]
name = "gotta_watch_em_all"
version = "0.1.0"
edition = "2021"
publish = false

[dependencies]
sysinfo = "0.24"
tokio = { version = "1", features = ["macros", "rt-multi-thread", "process", "time", "fs", "io-util", "io-std"] }
tokio-util = "0.7"
clap = { version = "4", features = ["derive"] }
