[package]
name = "titan_controller"
version = "0.1.0"
edition = "2021"
publish = false

[dependencies]
rustc-hash = "=2.1.3"
regex = "=1.13.1"
time = { version = "=0.3.55", features = ["formatting", "macros"] }
serde = { version = "=1.0.229", features = ["derive"] }
serde_json = "=1.0.154"
rusqlite = { version = "=0.41.1", features = ["bundled"] }
clap = { version = "=4.6.7", features = ["derive"] }
dirs = "=7.0.0"
lazy_static = "=1.5.1"
strum_macros = "=0.28.0"
json = "0.12"
