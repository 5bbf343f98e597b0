[package]
name = "irtt_client"
version = "0.1.0"
edition = "2021"
publish = false

[dependencies]
nix = { version = "*", features = ["net", "socket", "uio", "time"] }
socket2 = { version = "*", features = ["all"] }
thiserror = "*"
tokio = { version = "1", features = ["net", "rt", "sync", "time"] }
