[package]
name = "org_core"
version = "0.1.0"
edition = "2021"
publish = false

[dependencies]
chrono = "0.4"
orgize = "0.10.0-alpha.1"
nucleo-matcher = "*"
globset = "*"
ignore = "*"
shellexpand = "*"
dirs = "*"
config = "*"
serde = { version = "1", features = ["derive"] }
serde_json = "1"
toml = "*"
tempfile = "3"
tokio = { version = "1", features = ["macros", "rt-multi-thread", "sync", "io-std"] }
rmcp = { version = "*", features = ["server", "transport-io", "macros"] }
clap = { version = "4", features = ["derive"] }
tracing = "0.1"
tracing-subscriber = { version = "0.3", features = ["env-filter"] }
