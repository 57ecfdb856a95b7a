[package]
name = "typls"
version = "0.1.0"
edition = "2021"
publish = false

[dependencies]
rdev = "=0.5.3"
enigo = "=0.2.1"
active-win-pos-rs = "=0.8.4"
serde = { version = "=1.0.229", features = ["derive"] }
serde_json = "=1.0.151"
uuid = { version = "=1.27.0", features = ["v4"] }
