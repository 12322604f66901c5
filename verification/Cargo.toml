[package]
name = "sar_core"
version = "0.1.0"
edition = "2021"
publish = false

[dependencies]
image = { version = "0.25", default-features = false, features = ["png"] }
imageproc = { version = "0.25", default-features = false }
rayon = "1"
anyhow = "1"
clap = { version = "4", features = ["derive"] }
tokio = { version = "1", features = ["fs", "rt-multi-thread", "macros"] }
tokio-stream = { version = "0.1", features = ["fs"] }
