[package]
name = "nus3audio"
version = "0.1.0"
edition = "2021"
publish = false

[dependencies]
byteorder = "1.3"
crc = "1.8"
nom = "4.2"
clap = { version = "4", features = ["derive"] }
serde = { version = "1", features = ["derive"] }
serde_json = "1"
