[package]
name = "asset_extractor"
version = "0.1.0"
edition = "2021"
publish = false

[dependencies]
clap = { version = "=4.6.7", features = ["derive"] }
flate2 = "=1.1.10"
ironworks = { version = "=0.4.1", features = ["ffxiv", "sqpack"] }
reqwest = { version = "=0.12.28", features = ["blocking"] }
