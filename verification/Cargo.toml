[package]
name = "b1t_indexer"
version = "0.1.0"
edition = "2021"
publish = false

[dependencies]
bellscoin = "=0.30.8"
byteorder = "=1.5.0"
hex = "=0.4.3"
serde = { version = "=1.0.229", features = ["derive"] }
serde_json = "=1.0.154"
rusty-leveldb = "=4.0.2"
