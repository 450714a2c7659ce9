[package]
name = "vpn-core"
version = "0.1.0"
edition = "2021"
publish = false

[dependencies]
quick-xml = "=0.37.5"
rand = "=0.8.8"
serde_json = "=1.0.154"
urlencoding = "=2.1.3"
chrono = "=0.4.45"
clap = { version = "=4.6.7", features = ["derive"] }
keyring = "=3.6.3"
native-tls = "=0.2.18"
reqwest = { version = "=0.12.28", features = ["cookies"] }
serde = { version = "=1.0.229", features = ["derive"] }
thiserror = "=1.0.69"
tokio = { version = "=1.54.1", features = ["full"] }
tokio-native-tls = "=0.3.1"
tokio-util = "=0.7.20"
tracing = "=0.1.44"
tracing-subscriber = { version = "=0.3.23", features = ["env-filter"] }
tun = "=0.7.22"
zip = { version = "2", default-features = false, features = ["deflate"] }
