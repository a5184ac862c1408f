[package]
name = "spd"
version = "0.1.0"
edition = "2021"
publish = false

[dependencies]
aes-siv = "0.7"
glob = "0.3"
inotify = "0.11"
rand = "0.9"
regex = "1"
serde = { version = "1", features = ["derive"] }
serde_yaml = "0.9"
sha2 = "0.10"
tokio = { version = "1", features = ["rt-multi-thread", "macros", "net", "io-util"] }
