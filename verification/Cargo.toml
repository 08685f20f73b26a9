[package]
name = "valis_core"
version = "0.1.0"
edition = "2021"
publish = false

[dependencies]
chrono = { version = "=0.4.45", features = ["serde"] }
clap = "=2.34.0"
dirs = "=7.0.0"
git2 = { version = "=0.21.0", default-features = false }
globmatch = "=0.3.1"
home = "=0.5.12"
indicatif = "=0.17.11"
kdbx-rs = "=0.5.2"
reqwest = { version = "=0.11.27", features = ["blocking", "json"] }
rlua = "=0.19.8"
rusqlite = { version = "=0.41.0", features = ["bundled"] }
rustyline = "=19.0.0"
serde = { version = "=1.0.229", features = ["derive"] }
serde_json = "=1.0.154"
serde_yaml = "=0.9.34"
termion = "=4.0.6"
tokio = { version = "=1.54.1", features = ["rt", "rt-multi-thread"] }
uuid = { version = "=1.29.0", features = ["v4", "serde"] }

[dev-dependencies]
regex = "=1.13.1"
