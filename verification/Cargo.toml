[package]
name = "tray_broker"
version = "0.1.0"
edition = "2021"
publish = false

[dependencies]
image = { version = "0.24", default-features = false, features = ["png"] }
zbus = { version = "3" }
async-std = { version = "1", features = ["attributes"] }
futures-util = { version = "0.3" }
serde = { version = "1", features = ["derive"] }
serde_json = { version = "1" }
