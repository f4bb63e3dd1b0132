[package]
name = "netscope"
version = "0.1.0"
edition = "2021"
publish = false

[dependencies]
etherparse = "0.13"
byteorder = "1"
regex = "1"
cidr = "0.2"
hex = "0.4"
rand = "0.8"
chrono = { version = "0.4", default-features = false, features = ["alloc", "std"] }
serde = { version = "1", features = ["derive"] }
serde_json = "1"
crossbeam-channel = "0.5"
parking_lot = "0.12"
pcap = "1"
reqwest = { version = "0.11", default-features = false, features = ["blocking", "json"] }
