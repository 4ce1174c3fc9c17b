[package]
name = "batch_convert"
version = "0.1.0"
edition = "2021"
publish = false

[dependencies]
anyhow = "1"
camino = "1"
indexmap = "2"
libheif-rs = "*"
once_cell = "1"
png = "0.17"
termion = "*"
tokio = { version = "1", features = ["rt-multi-thread", "macros", "sync", "fs", "time"] }
