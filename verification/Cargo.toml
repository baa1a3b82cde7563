[package]
name = "cepa"
version = "0.1.0"
edition = "2021"
publish = false

[dependencies]
blake3 = "*"
zstd = "*"
miniz_oxide = "*"
lznt1 = "*"
regex = "*"
libc = "*"
rustix = { version = "*", features = ["fs"] }
crossbeam-channel = "*"
jwalk = "*"
rayon = "*"
sysinfo = "*"
serde = { version = "*", features = ["derive"] }
serde_json = "*"

[dev-dependencies]
tempfile = "*"
