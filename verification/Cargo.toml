[package]
name = "rusty_embers"
version = "0.1.0"
edition = "2021"
publish = false

[dependencies]
bytes = "1"
libc = "0.2"
thiserror = "1"
tokio = { version = "1", features = ["net", "io-util", "rt"] }
tracing = "0.1"
