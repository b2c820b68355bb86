[package]
name = "e2etest"
version = "0.1.0"
edition = "2021"
publish = false

[dependencies]
async-backtrace = "0.2"
futures = "0.3"
tokio = { version = "1", features = ["macros", "rt", "rt-multi-thread", "time"] }
tracing = "0.1"
