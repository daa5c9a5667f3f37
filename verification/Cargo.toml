[package]
name = "lf_blog"
version = "0.1.0"
edition = "2021"
publish = false

[dependencies]
chrono = "0.4"
pulldown-cmark = { version = "*", default-features = false, features = ["html"] }
serde_yaml = "0.9"
serde = { version = "1", features = ["derive"] }
serde_json = "1"
toml = "*"
tera = { version = "1", default-features = false }
rusqlite = { version = "*", features = ["bundled"] }
log = "0.4"
env_logger = "*"
clap = { version = "4", features = ["derive"] }
