[package]
name = "git_sync"
version = "0.1.0"
edition = "2021"
publish = false

[dependencies]
tokio = { version = "1", features = ["io-util", "macros", "process", "rt-multi-thread"] }
structopt = "0.3"
