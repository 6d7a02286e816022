[package]
name = "errorscript"
version = "0.1.0"
edition = "2021"
publish = false

[dependencies]
relative-path = "=1.9.3"
im = "=15.1.0"
petgraph = "=0.6.5"
glob = "=0.3.4"
anyhow = "=1.0.104"
tokio = { version = "=1.54.1", features = ["rt-multi-thread", "macros", "fs", "sync", "time", "io-std"] }
toml = "=0.8.23"
serde = { version = "=1.0.229", features = ["derive"] }
tower-lsp = "=0.20.0"

[dev-dependencies]
tempfile = "=3.27.0"
