[package]
name = "rtdownloader"
version = "0.1.0"
edition = "2021"
publish = false

[dependencies]
byteorder = "1"
flume = "0.11"
futures = "0.3"
hex = "0.4"
mainline = "2"
rand = "0.8"
reqwest = { version = "0.12", default-features = false }
serde = { version = "1", features = ["derive"] }
serde_bencode = "0.2"
serde_bytes = "0.11"
sha1 = "0.10"
tokio = { version = "1", features = ["full"] }
tracing = "0.1"
tracing-subscriber = "0.3"
url = "2"
