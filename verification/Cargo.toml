[package]
name = "udp_chat"
version = "0.1.0"
edition = "2021"
publish = false

[dependencies]
byteorder = "1"
clap = { version = "3", features = ["derive"] }
crossbeam-channel = "0.5"
cursive = { version = "0.20", default-features = false, features = ["crossterm-backend"] }
serde = { version = "1", features = ["derive"] }
tinytemplate = "1"
