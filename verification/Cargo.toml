[package]
name = "meow_engine"
version = "0.6.0"
edition = "2021"
publish = false

[dependencies]
base64 = "=0.22.1"
encoding_rs = "=0.8.44"
skrifa = "=0.49.0"
tiny-skia = "=0.11.4"
image = { version = "=0.25.10", default-features = false, features = ["png", "jpeg", "gif"] }
resvg = { version = "=0.49.0", default-features = false }
serde = { version = "=1.0.229", features = ["derive"] }
serde_json = "=1.0.154"
http = "1"
