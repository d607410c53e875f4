[package]
name = "trust_breaker"
version = "0.1.0"
edition = "2021"
publish = false

[dependencies]
chrono = "=0.4.45"
clap = "=4.6.7"
csv = "=1.4.0"
cvss = "=2.2.0"
glob = "=0.3.4"
log = "=0.4.35"
regex = "=1.13.1"
reqwest = { version = "=0.12.28", default-features = false, features = ["json", "rustls-tls"] }
serde = "=1.0.229"
serde_derive = "=1.0.229"
serde_json = "=1.0.154"
simplelog = "=0.12.2"
tokio = { version = "=1.54.1", features = ["macros", "rt-multi-thread", "sync", "time", "fs", "io-util"] }
xmltojson = "=0.3.0"
