[package]
name = "monitorhop"
version = "0.1.2"
edition = "2021"
publish = false

[dependencies]
sha2 = "=0.10.9"
slab = "=0.4.12"
tar = { version = "=0.4.46", default-features = false }
url = "=2.5.8"
walkdir = "=2.5.0"
log = "=0.4.35"
env_logger = "=0.11.11"
libc = "=0.2.191"
futures = "=0.3.34"
local-channel = "=0.1.5"
tokio = { version = "=1.54.1", features = ["io-util", "macros", "net", "process", "rt", "sync", "time", "signal"] }
tokio-util = "=0.7.20"
rustls = { version = "=0.23.46", default-features = false, features = ["std", "ring"] }
webrtc-dtls = { version = "=0.12.0", features = ["pem"] }
webrtc-util = "=0.11.0"
if-addrs = "=0.13.4"
if-watch = { version = "3", features = ["tokio"] }
netdev = "=0.47.0"
thiserror = "=2.0.21"
