[package]
name = "pcurl"
version = "0.1.0"
edition = "2021"
publish = false

[dependencies]
url = "2"
serde_json = "1"
colored = "2"
clap = { version = "4", features = ["derive"] }
tokio = { version = "1", features = ["rt-multi-thread", "macros", "io-std", "io-util", "sync"] }
tokio-tungstenite = "0.23"
futures-util = { version = "0.3", features = ["sink"] }
ureq = "2"
