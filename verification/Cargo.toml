[package]
name = "translucent"
version = "0.1.0"
edition = "2021"
publish = false

[dependencies]
tokio = { version = "1", features = ["net", "io-util", "rt-multi-thread", "macros", "sync"] }
log = "0.4"
simple_logger = "*"
ansi_term = "0.12"
