[package]
name = "mongodb-influxdb"
version = "0.1.0"
edition = "2021"
publish = false

[dependencies]
aho-corasick = "1"
itoa = "1"
url = "2"
flate2 = "1"
ryu = "1"
anyhow = "1"
clap = { version = "4", features = ["derive", "env"] }
clap-verbosity-flag = "2"
futures-util = "0.3"
humantime = "2"
mongodb = "2"
reqwest = { version = "0.12", default-features = false, features = ["json", "rustls-tls"] }
serde = { version = "1", features = ["derive"] }
signal-hook = "0.3"
signal-hook-tokio = { version = "0.3", features = ["futures-v0_3"] }
tokio = { version = "1", features = ["full"] }
tokio-stream = { version = "0.1", features = ["net"] }
tokio-util = "0.7"
tracing = "0.1"
tracing-log = "0.2"
tracing-subscriber = "0.3"
