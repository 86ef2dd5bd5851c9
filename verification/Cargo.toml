[package]
name = "sysport"
version = "0.1.0"
edition = "2021"
publish = false

[dependencies]
regex = "*"
maxminddb = "*"
csv = "*"
sysinfo = "*"
pcap = "*"
tokio = { version = "*", features = ["full"] }
serde = { version = "*", features = ["derive"] }
serde_json = "*"
libloading = "*"
notify-rust = "*"
rcgen = "*"
trust-dns-server = "*"
mlua = { version = "*", features = ["lua54", "vendored"] }
