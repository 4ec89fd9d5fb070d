[package]
name = "xiaofeng"
version = "0.1.0"
edition = "2021"
publish = false

[dependencies]
rustc-hash = "=2.1.3"
rand = "=0.8.8"
compact_str = { version = "=0.8.2", features = ["serde"] }
serde = { version = "=1.0.229", features = ["derive"] }
serde_json = "=1.0.154"
colorized = "=1.0.0"
terminal_size = "=0.4.4"
image = { version = "0.25", default-features = false, features = ["png"] }
