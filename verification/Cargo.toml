[package]
name = "code_core"
version = "0.1.0"
edition = "2021"
publish = false

[dependencies]
sha2 = "=0.10.9"
regex-lite = "=0.1.9"
shlex = "=1.3.0"
uuid = { version = "=1.29.0", features = ["v4"] }
serde = { version = "=1.0.229", features = ["derive"] }
serde_json = "=1.0.154"
serde_yaml = "=0.9.34"
dirs = "=7.0.0"
dunce = "=1.0.5"
tempfile = "=3.27.0"
chrono = "=0.4.45"
fs2 = "=0.4.3"
urlencoding = "2"
