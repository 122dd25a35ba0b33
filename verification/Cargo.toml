[package]
name = "glue"
version = "0.1.0"
edition = "2021"
publish = false

[dependencies]
serde_json = "=1.0.151"
jsonpath-rust = "=1.0.11"
reqwest = { version = "=0.13.5", default-features = false, features = ["json", "form"] }
tokio = { version = "=1.53.2", features = ["rt-multi-thread", "macros"] }
clap = { version = "=4.6.7", features = ["derive"] }
colored = "=3.1.1"
