[package]
name = "stocksense"
version = "0.1.0"
edition = "2021"
publish = false

[dependencies]
rand = "0.9"
serde = { version = "1", features = ["derive"] }
postcard = { version = "1", features = ["alloc"] }
csv = "1"
anyhow = "1"
chrono = "0.4"
owo-colors = "4"
clearscreen = "*"
defer-rs = "*"
opener = "*"
binrw = "*"
