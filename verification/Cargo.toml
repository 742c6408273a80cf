[package]
name = "map_tile_studio"
version = "0.1.0"
edition = "2021"
publish = false

[dependencies]
percent-encoding = "=2.3.2"
regex = "=1.13.1"
num_cpus = "=1.17.0"
serde = { version = "=1.0.229", features = ["derive"] }
serde_json = "=1.0.154"
martin-tile-utils = "=0.6.12"
tiny_http = "=0.12.0"
rusqlite = { version = "=0.41.1", features = ["bundled"] }
tokio = { version = "=1.54.1", features = ["full"] }
clap = { version = "=4.6.7", features = ["derive"] }
thiserror = "=2.0.21"
dashmap = "=6.2.1"
tokio-postgres = "=0.7.18"
actix-web = { version = "4", default-features = false, features = ["macros"] }
