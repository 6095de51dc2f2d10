[package]
name = "event_sync"
version = "0.1.0"
edition = "2021"
publish = false

[dependencies]
chrono = "*"
env_logger = "*"
eyre = "*"
futures = "*"
google-apis-common = "*"
google-calendar3 = "*"
hyper-rustls = "*"
hyper-util = "*"
log = "*"
rustls = "*"
serde_json = "*"
structopt = "*"
tokio = { version = "*", features = ["macros", "rt-multi-thread"] }
yup-oauth2 = "*"
