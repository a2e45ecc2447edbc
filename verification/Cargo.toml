[package]
name = "archiver"
version = "0.1.0"
edition = "2021"
publish = false

[dependencies]
zip = { version = "2", default-features = false, features = ["deflate"] }
path-slash = "0.2"
walkdir = "2"
file-matcher = "*"
futures = "0.3"
indicatif = "0.17"
new_string_template = "*"
thiserror = "1"
tokio = { version = "1", default-features = false, features = ["rt"] }
reqwest = { version = "0.12", default-features = false }
url = "2"

[dev-dependencies]
tempfile = "3"
