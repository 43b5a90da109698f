[package]
name = "indexed_file"
version = "0.1.0"
edition = "2021"
publish = false

[dependencies]
bincode = "1.3"
mmarinus = "*"
serde = { version = "1", features = ["derive"] }
