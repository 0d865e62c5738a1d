[package]
name = "efficax"
version = "0.1.0"
edition = "2021"
publish = false

[dependencies]
bincode = "2"
byteorder = "1"
cgmath = "0.18"
ctrlc = "3"
tokio = { version = "1", features = ["full"] }
