[package]
name = "treeherder_cli"
version = "0.1.0"
edition = "2021"
publish = false

[dependencies]
anyhow = "*"
clap = { version = "*", features = ["derive"] }
colored = "*"
comfy-table = "*"
futures = "*"
indicatif = "*"
notify-rust = "*"
regex = "*"
reqwest = { version = "0.12", default-features = false, features = ["json", "rustls-tls"] }
serde = { version = "*", features = ["derive"] }
serde_json = "*"
tempfile = "*"
tokio = { version = "*", features = ["rt-multi-thread", "macros", "time"] }
url = "*"
