[package]
name = "kline_ingest"
version = "0.1.0"
edition = "2021"
publish = false

[dependencies]
anyhow = "=1.0.104"
chrono = "=0.4.45"
clap = { version = "=4.6.7", features = ["derive"] }
clap-verbosity-flag = "=2.2.3"
colored = "=2.2.0"
crossbeam = "=0.8.5"
csv = "=1.4.0"
env_logger = "=0.10.2"
indicatif = "=0.18.6"
indicatif-log-bridge = "=0.2.3"
log = "=0.4.34"
rayon = "=1.12.0"
regex = "=1.13.1"
reqwest = { version = "=0.11.27", default-features = false, features = ["blocking", "rustls-tls"] }
serde = { version = "=1.0.229", features = ["derive"] }
serde-xml-rs = "=0.6.0"
ta = "=0.5.0"
zip = { version = "=0.6.6", default-features = false, features = ["deflate"] }
