[package]
name = "gclient"
version = "0.1.0"
edition = "2021"
publish = false

[dependencies]
bytes = "1"
env_logger = "*"
godot = "*"
log = "0.4"
prost = "*"
prost-reflect = "*"
serde = { version = "1", features = ["derive"] }
serde_json = "1"
sha2 = "*"
tungstenite = "*"
url = "2"
