[package]
name = "schelk"
version = "0.1.0"
edition = "2021"
publish = false

[dependencies]
clap = { version = "4", features = ["derive", "env"] }
color-eyre = "0.6"
eyre = "0.6"
io-uring = "0.7"
nix = { version = "0.30", features = ["fs", "process", "signal", "user"] }
quick-xml = "0.38"
serde = { version = "1", features = ["derive"] }
serde_json = "1"
sha2 = "0.10"
tokio = { version = "1", features = ["macros", "process", "rt-multi-thread", "signal"] }
tracing = "0.1"
