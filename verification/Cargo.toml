[package]
name = "brain_metadata"
version = "0.1.0"
edition = "2021"
publish = false

[dependencies]
redb = "=3.1.3"
blake3 = "=1.8.7"
serde = { version = "=1.0.229", features = ["derive"] }
serde_json = "=1.0.154"
smallvec = "1"
thiserror = "=1.0.69"
tracing = "=0.1.44"

[dev-dependencies]
tempfile = "=3.27.0"
