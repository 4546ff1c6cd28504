[package]
name = "mirror_clone"
version = "0.1.0"
edition = "2021"
publish = false

[dependencies]
iter-set = "2"
html-escape = "0.2"
urlencoding = "2"
sha2 = "0.10"
sha1 = "0.10"
md-5 = "0.10"
regex = "1"
chrono = "0.4"
url = "2"
rand = "0.8"
tokio = { version = "1", features = ["full"] }
tokio-util = { version = "0.7", features = ["codec", "io"] }
reqwest = { version = "0.11", default-features = false, features = ["rustls-tls", "stream", "json"] }
futures-util = "0.3"
bytes = "1"
serde = { version = "1", features = ["derive"] }
serde_json = "1"
serde_yaml = "0.9"
structopt = "0.3"
slog = "2"
slog-term = "2"
slog-async = "2"
indicatif = "0.15"
walkdir = "2"
filetime = "0.2"
async-trait = "0.1"
thiserror = "1"
zip = { version = "0.6", default-features = false, features = ["deflate"] }
rusoto_core = { version = "0.48", default-features = false, features = ["rustls"] }
rusoto_s3 = { version = "0.48", default-features = false, features = ["rustls"] }
