[package]
name = "rust_gallery"
version = "0.1.0"
edition = "2021"
publish = false

[dependencies]
chrono = { version = "=0.4.45", features = ["serde"] }
http = "=1.5.0"
image = { version = "=0.24.9", default-features = false, features = ["jpeg"] }
libc = "=0.2.191"
ngx = "=0.4.1"
once_cell = "=1.21.4"
serde = { version = "=1.0.229", features = ["derive"] }
serde_json = "=1.0.154"
urlencoding = "=2.1.3"
uuid = { version = "=1.29.0", features = ["v4"] }
