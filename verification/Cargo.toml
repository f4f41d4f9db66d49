[package]
name = "ygrep_core"
version = "0.1.0"
edition = "2021"
publish = false

[dependencies]
xxhash-rust = { version = "=0.8.19", features = ["xxh3"] }
lru = "=0.12.5"
fastembed = { version = "=4.9.1", default-features = false, features = ["hf-hub"] }
hnsw_rs = "=0.1.19"
tantivy = { version = "=0.22.1", default-features = false, features = ["mmap"] }
notify-debouncer-full = "=0.3.2"
tokio = { version = "=1.54.1", features = ["sync"] }
parking_lot = "=0.12.5"
serde = { version = "=1.0.229", features = ["derive"] }
serde_json = "=1.0.154"
toml = "=0.8.23"
chrono = { version = "=0.4.45", default-features = false, features = ["std", "now"] }
dirs = "=5.0.1"
thiserror = "=1.0.69"
anyhow = "=1.0.104"
tracing = "=0.1.44"
walkdir = "=2.5.0"
ignore = "=0.4.33"
clap = { version = "4", default-features = false, features = ["std", "derive", "help", "usage"] }
tracing-subscriber = { version = "0.3", default-features = false, features = ["std", "fmt", "env-filter"] }
