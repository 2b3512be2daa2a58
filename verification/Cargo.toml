[package]
name = "reductstore"
version = "0.1.0"
edition = "2021"
publish = false

[dependencies]
async-stream = "0.3"
async-trait = "0.1"
axum = "0.8"
axum-extra = { version = "*", features = ["typed-header"] }
byteorder = "1"
bytes = "1"
bytesize = "*"
crc64fast = "1"
fs4 = "*"
log = "0.4"
parking_lot = "0.12"
prost = "*"
rand = "0.9"
serde = { version = "1", features = ["derive"] }
serde_json = "1"
tokio = { version = "1", features = ["fs", "io-util", "macros", "rt", "rt-multi-thread", "sync", "time"] }
uuid = { version = "1", features = ["v4"] }
