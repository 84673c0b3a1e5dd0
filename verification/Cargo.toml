[package]
name = "aozora-flavored-markdown-epub"
version = "0.1.0"
edition = "2021"
publish = false

[dependencies]
aozora-encoding = "=0.4.1"
quick-xml = "=0.42.0"
chrono = "=0.4.45"
uuid = { version = "=1.29.1", features = ["v4"] }
zip = { version = "=9.2.2", default-features = false, features = ["deflate"] }
toml = "=1.2.1"
serde = { version = "=1.0.229", features = ["derive"] }
thiserror = "=2.0.21"
miette = "=7.6.0"
clap = { version = "=4.6.7", features = ["derive"] }
anyhow = "=1.0.104"
