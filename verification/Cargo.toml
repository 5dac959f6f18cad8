[package]
name = "speakagent"
version = "0.1.0"
edition = "2021"
publish = false

[dependencies]
serde = { version = "1", features = ["derive"] }
serde_json = "1"
rusqlite = { version = "0.32", features = ["bundled"] }
ureq = "2"
dirs = "5"
sysinfo = { version = "0.29", default-features = false }
machine-uid = "0.5"
symphonia = "0.5"
sherpa-onnx = "1.12"
genpdf = "0.2"
tar = "0.4"
bzip2 = "0.4"
flate2 = "1"
zip = { version = "2", default-features = false, features = ["deflate"] }
axum = "0.7"
tokio = { version = "1", features = ["rt-multi-thread", "net", "sync", "macros"] }
