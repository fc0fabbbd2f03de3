[package]
name = "auto_mac_layout"
version = "0.1.0"
edition = "2021"
publish = false

[dependencies]
auto-launch = "0.5"
cocoa = "0.26"
core-graphics = "0.24"
dirs = "5"
image = { version = "0.25", default-features = false, features = ["png"] }
serde = { version = "1", features = ["derive"] }
serde_json = "1"
tao = "*"
tray-icon = "*"
