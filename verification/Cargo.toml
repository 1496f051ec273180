[package]
name = "oma"
version = "0.1.0"
edition = "2021"
publish = false

[dependencies]
crossterm = "*"
directories = "*"
reqwest = { version = "*", default-features = false, features = ["json", "stream"] }
serde = { version = "*", features = ["derive"] }
serde_json = "*"
syntect = "*"
syntect-assets = "*"
textwrap = "*"
tokio = { version = "*", features = ["rt-multi-thread", "macros", "signal", "sync", "time"] }
tokio-stream = "*"
tokio-util = "*"
toml = "*"
whoami = "*"
