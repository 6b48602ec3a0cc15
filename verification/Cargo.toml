[package]
name = "wget-faster-lib"
version = "0.1.0"
edition = "2021"
publish = false

[dependencies]
url = "2"
percent-encoding = "2"
chrono = { version = "0.4", default-features = false, features = ["clock", "std"] }
scraper = "*"
regex = "1"
httpdate = "1"
reqwest = { version = "0.12", default-features = false, features = ["rustls-tls", "cookies", "gzip", "brotli", "deflate", "stream"] }
tokio = { version = "1", features = ["full"] }
bytes = "1"
futures-util = "0.3"
http = "1"
anyhow = "1"
thiserror = "*"
tracing = "0.1"
tracing-subscriber = { version = "0.3", features = ["env-filter"] }
clap = { version = "4", features = ["derive"] }
indicatif = "*"
rand = "0.8"
filetime = "0.2"
