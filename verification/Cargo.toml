[package]
name = "a2s"
version = "0.1.0"
edition = "2021"
publish = false

[dependencies]
bzip2 = "*"
crc = "*"
serde = { version = "*", features = ["derive"] }
thiserror = "*"
tokio = { version = "*", features = ["net", "time", "rt"] }
