[package]
name = "veha"
version = "4.1.1"
edition = "2021"
publish = false

[dependencies]
quick-xml = { version = "0.37", features = ["serialize"] }
tera = "1"
toml = "0.8"
markdown = "1.0.0-alpha.21"
rusqlite = { version = "0.32", features = ["bundled"] }
csv = "1"
clap = "4"
env_logger = "0.11"
log = "0.4"
serde = { version = "1", features = ["derive"] }
serde_json = "1"
