[package]
name = "ceres"
version = "0.1.0"
edition = "2021"
publish = false

[dependencies]
md5 = "=0.7.0"
slug = "=0.1.6"
regex = "=1.13.1"
feed-rs = "=1.5.3"
serde = { version = "=1.0.229", features = ["derive"] }
serde_json = { version = "=1.0.154", features = ["preserve_order"] }
log = "=0.4.34"
tokio = { version = "=1.54.1", features = ["fs", "io-util", "macros", "rt-multi-thread"] }
hyper = { version = "=0.14.32", features = ["client", "http1", "http2", "tcp"] }
hyper-tls = "=0.5.0"
teloxide = { version = "=0.12.2", features = ["macros"] }
dptree = "=0.3.0"
takecell = "=0.1.1"
