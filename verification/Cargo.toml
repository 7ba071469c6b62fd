[package]
name = "spruce"
version = "0.1.0"
edition = "2021"
publish = false

[dependencies]
serde_json = "1"
quick-xml = "0.37"
colored = "2"
clap = { version = "4", features = ["derive"] }
