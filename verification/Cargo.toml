[package]
name = "lfc"
version = "0.1.0"
edition = "2021"
rust-version = "1.95"
publish = false

[dependencies]
anyhow = "=1.0.104"
async-openai = "=0.29.6"
chrono = "=0.4.45"
clap = { version = "=4.6.7", features = ["derive"] }
ftail = "=0.3.1"
ical = "=0.11.0"
lettre = { version = "=0.11.23", default-features = false, features = ["builder", "smtp-transport", "tokio1", "tokio1-rustls-tls"] }
log = "=0.4.34"
regex = "=1.13.1"
reqwest = "=0.12.28"
rusqlite = { version = "=0.40.2", features = ["bundled"] }
scraper = "=0.29.0"
serde = { version = "=1.0.229", features = ["derive"] }
serde_json = "=1.0.154"
serde_path_to_error = "=0.1.20"
serde_yaml = "0.9"
# Not named in the code: teloxide depends on takecell, and takecell 0.1.2
# needs Rust 1.96. This line keeps it at the release that builds with the
# rust-version above.
takecell = "=0.1.1"
teloxide = "=0.17.0"
tiktoken-rs = "=0.12.1"
tokio = { version = "=1.54.1", features = ["full"] }
url = "=2.5.8"
xdg = "=3.0.0"
