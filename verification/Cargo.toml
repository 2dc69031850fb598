[package]
name = "sentry_mirror"
version = "0.1.0"
edition = "2021"
publish = false

[dependencies]
base64 = "0.22"
clap = { version = "4", features = ["derive"] }
flate2 = "1"
futures = "0.3"
http-body-util = "0.1"
hyper = { version = "1", features = ["client", "server", "http1"] }
hyper-tls = "0.6"
hyper-util = { version = "0.1", features = ["client-legacy", "http1", "tokio"] }
log = "0.4"
regex = "1"
serde = { version = "1", features = ["derive"] }
serde_json = "1"
serde_yaml = "0.9"
simple_logger = "5"
tokio = { version = "1", features = ["macros", "net", "rt-multi-thread"] }
url = "2"
