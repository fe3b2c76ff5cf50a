[package]
name = "microbenchmarks"
version = "0.1.0"
edition = "2021"
publish = false

[dependencies]
regex = "=1.13.1"
byteorder = "=1.5.0"
linked-hash-map = "=0.5.6"
konst = "=0.3.17"
fastrand = "=2.5.0"
serde = { version = "=1.0.229", features = ["derive"] }
config = { version = "=0.14.1", default-features = false, features = ["toml", "convert-case"] }
clap = { version = "=4.6.7", features = ["derive"] }
anyhow = "=1.0.104"
log = "=0.4.35"
log4rs = "=1.4.0"
bincode = { version = "=2.0.1", features = ["serde"] }
tracing = "=0.1.44"
tracing-appender = "=0.2.5"
tracing-subscriber = { version = "=0.3.23", features = ["env-filter", "json"] }
chrono = "=0.4.45"
