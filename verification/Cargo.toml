[package]
name = "dirust"
version = "0.1.1"
edition = "2021"
publish = false

[dependencies]
clap = { version = "4", features = ["derive"] }
reqwest = { version = "0.12" }
tokio = { version = "1", features = ["rt-multi-thread", "macros", "sync"] }
