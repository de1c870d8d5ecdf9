[package]
name = "link_titles"
version = "0.1.0"
edition = "2021"
publish = false

[dependencies]
quick-xml = "=0.38.4"
htmlescape = "=0.3.1"
url = "=2.5.8"
chrono = { version = "=0.4.45", default-features = false, features = ["std"] }
time-parse = "=0.2.2"
regex-syntax = "=0.8.11"
serde = { version = "=1.0.229", features = ["derive"] }
serde_json = "=1.0.154"
reqwest = { version = "=0.12.28", default-features = false, features = ["json", "rustls-tls"] }
tokio = { version = "=1.54.1", features = ["macros", "rt-multi-thread"] }
irc = { version = "=1.1.0", default-features = false, features = ["tls-rust"] }
futures = "=0.3.34"
anyhow = "=1.0.104"
log = "=0.4.34"
pretty_env_logger = "=0.5.0"
toml = "=0.8.23"
subprocess = "=0.2.15"
tempfile = "=3.27.0"

[dev-dependencies]
regex = "=1.13.1"
number_prefix = "=0.4.0"
