[package]
name = "webhound"
version = "0.1.0"
edition = "2021"
publish = false

[dependencies]
regex = "*"
sha2 = "*"
url = "*"
serde_json = "*"
select = "*"
zip = "*"
tar = "*"
flate2 = "*"
bzip2 = "*"
xz2 = { version = "*", features = ["static"] }
reqwest = { version = "*", default-features = false, features = ["rustls-tls"] }
tokio = { version = "*", features = ["rt-multi-thread", "macros", "sync", "time", "fs", "io-util"] }
futures = "*"
anyhow = "*"
tiny_http = "*"
headless_chrome = "*"
portpicker = "*"
