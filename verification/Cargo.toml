[package]
name = "comp_tools"
version = "0.1.0"
edition = "2021"
publish = false

[dependencies]
anyhow = "1"
arboard = { version = "3", default-features = false }
async-nats = { version = "*", default-features = false, features = ["ring", "jetstream"] }
axum = "0.8"
base64 = "0.22"
bollard = { version = "*", default-features = false, features = ["pipe"] }
bytes = "1"
clap = { version = "4", features = ["derive", "env"] }
futures = "0.3"
headless_chrome = { version = "1", default-features = false }
hmac = "0.12"
http-body-util = "0.1"
hyper = { version = "1", features = ["client", "server", "http1"] }
hyper-util = { version = "0.1", features = ["client", "client-legacy", "http1", "tokio"] }
image = { version = "0.25", default-features = false, features = ["jpeg", "png"] }
kamadak-exif = "0.6"
md-5 = "0.10"
mdns-sd = { version = "0.13", default-features = false }
rawler = "0.7"
regex = "1"
reqwest = { version = "0.12", default-features = false, features = ["blocking", "json"] }
rusty-s3 = "0.8"
serde = { version = "1", features = ["derive"] }
serde_json = "1"
sha2 = "0.10"
tempfile = "3"
tokio = { version = "1", features = ["full"] }
toml = "0.8"
