[package]
name = "animus-subject-markdown"
version = "0.1.0"
edition = "2021"
publish = false

[dependencies]
anyhow = "=1.0.104"
chrono = { version = "=0.4.45", features = ["serde"] }
futures = "=0.3.34"
notify = "=6.1.1"
serde = { version = "=1.0.229", features = ["derive"] }
serde_json = { version = "=1.0.154", features = ["float_roundtrip", "unbounded_depth"] }
serde_yaml = "=0.9.34"
tokio = { version = "=1.54.1", features = ["fs", "macros", "rt", "rt-multi-thread", "sync", "time"] }
tracing = "=0.1.44"
