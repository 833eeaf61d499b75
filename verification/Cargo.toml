[package]
name = "tabbycat_sync"
version = "0.1.0"
edition = "2021"
publish = false

[dependencies]
attohttpc = { version = "*", features = ["json"] }
clap = { version = "4", features = ["derive"] }
comfy-table = "*"
csv = "1"
dirs = "*"
itertools = "*"
reqwest = { version = "*", features = ["json"] }
rpassword = "*"
rusqlite = { version = "*", features = ["bundled"] }
rustls = { version = "*", features = ["ring"] }
serde = { version = "1", features = ["derive"] }
serde_json = "1"
tokio = { version = "1", features = ["rt-multi-thread", "macros", "time", "sync"] }
toml = "*"
tracing = "0.1"
tracing-subscriber = { version = "*", features = ["env-filter"] }
url = "2"
