[package]
name = "rfdb"
version = "0.1.0"
edition = "2021"
publish = false

[dependencies]
blake3 = "=1.8.7"
serde_json = "=1.0.154"
serde = { version = "=1.0.229", features = ["derive"] }
rmp-serde = "=1.3.1"
memmap2 = "=0.9.12"
signal-hook = "=0.3.18"
sysinfo = "=0.30.13"
thiserror = "=1.0.69"
tracing = "=0.1.44"
crossbeam-channel = "=0.5.17"
bincode = "=1.3.3"
sled = "=0.34.7"
regex-lite = "0.1"
syn = { version = "=2.0.119", features = ["full", "visit"] }
quote = "=1.0.47"
proc-macro2 = { version = "=1.0.107", features = ["span-locations"] }
napi = { version = "2", features = ["napi6"] }
napi-derive = "2"
