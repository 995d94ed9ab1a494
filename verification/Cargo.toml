[package]
name = "flowlens"
version = "0.1.0"
edition = "2021"
publish = false

[dependencies]
chrono = "*"
etherparse = "*"
pcap = "*"
rusqlite = { version = "*", features = ["bundled"] }
serde = { version = "1", features = ["derive"] }
serde_json = "1"
sysinfo = "*"
winreg = "*"
