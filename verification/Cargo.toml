[package]
name = "lanecho"
version = "0.1.0"
edition = "2021"
publish = false

[dependencies]
anyhow = "1"
arboard = "3"
blake3 = "1"
clap = { version = "4", features = ["derive"] }
fast_image_resize = "5"
hostname = "0.4"
mdns-sd = "*"
os_info = { version = "3", default-features = false }
png = "0.18"
rcgen = { version = "0.14", default-features = false, features = ["crypto", "ring", "pem"] }
regex = "1"
rustls = { version = "0.23", default-features = false, features = ["ring", "std", "tls12", "logging"] }
rustls-pki-types = "1"
serde = { version = "1", features = ["derive"] }
serde_json = "1"
socket2 = "0.6"
thiserror = "2"
tokio = { version = "1", features = ["rt-multi-thread", "net", "io-util", "io-std", "time", "sync", "macros", "fs", "signal"] }
tokio-rustls = { version = "0.26", default-features = false, features = ["ring", "tls12", "logging"] }
tracing = "0.1"
tracing-subscriber = { version = "0.3", features = ["env-filter"] }
uuid = { version = "1", features = ["v4"] }
