[package]
name = "game_zone"
version = "0.1.0"
edition = "2021"
publish = false

[dependencies]
tokio = { version = "1", features = ["net", "rt", "rt-multi-thread", "macros", "sync", "io-util"] }
futures = "0.3"
nalgebra = "*"
protobuf = "*"
log = "0.4"
simplelog = "*"
chrono = "0.4"
