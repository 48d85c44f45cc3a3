[package]
name = "stellaris_exporter"
version = "0.1.0"
edition = "2021"
publish = false

[dependencies]
actix-rt = "*"
actix-web = { version = "*", default-features = false }
env_logger = "*"
futures = "*"
jomini = { version = "*", features = ["json"] }
lazy_static = "*"
log = "*"
notify = "*"
once_cell = "*"
prometheus = { version = "*", default-features = false }
serde = { version = "*", features = ["derive"] }
serde_json = "*"
tokio = { version = "*", features = ["rt"] }
toml = "*"
walkdir = "*"
