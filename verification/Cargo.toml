[package]
name = "pix_mcp"
version = "0.1.0"
edition = "2021"
publish = false

[dependencies]
anyhow = "1"
base64 = "0.22"
csv = "1"
image = { version = "0.25", default-features = false, features = ["png"] }
percent-encoding = "2"
process-wrap = { version = "9.1", default-features = false, features = ["tokio1", "job-object"] }
rmcp = { version = "2.2", features = ["server", "macros", "transport-io", "elicitation", "schemars"] }
serde = { version = "1", features = ["derive"] }
serde_json = "1"
tempfile = "3"
tokio = { version = "1", features = ["rt-multi-thread", "macros", "process", "io-util", "sync", "time", "fs"] }
tracing = "0.1"
tracing-subscriber = { version = "0.3", features = ["env-filter"] }
