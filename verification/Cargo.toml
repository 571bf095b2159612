[package]
name = "torrent_peer"
version = "0.1.0"
edition = "2021"
publish = false

[dependencies]
async-std = { version = "1", features = ["unstable"] }
async-trait = "0.1"
bytes = "1"
futures-util = { version = "0.3", features = ["sink", "io"] }
bip_metainfo = "0.12"
