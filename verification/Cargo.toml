[package]
name = "sahou_core"
version = "0.1.0"
edition = "2021"
publish = false

[dependencies]
anstyle = "=1.0.14"
anstream = "=0.6.21"
base64 = "=0.22.1"
hex = "=0.4.3"
sha2 = "=0.10.9"
serde = { version = "=1.0.229", features = ["derive"] }
serde_json = "=1.0.154"
serde_norway = "=0.9.42"
serde_path_to_error = "=0.1.20"
clap = { version = "=4.6.7", features = ["derive"] }
tiny_http = "*"
notify = "*"
