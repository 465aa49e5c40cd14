[package]
name = "sonicbot_matrix"
version = "0.1.0"
edition = "2021"
publish = false

[dependencies]
ctrlc-handler = "*"
glob = "0.3"
linewrapper = "*"
rand = "0.8"
regex = "1"
ruma = { version = "0.4", features = ["client-api-c"] }
serde = { version = "1", features = ["derive"] }
serde_json = "1"
serde_yaml = "0.8"
ureq = { version = "2", features = ["json"] }
urlencoding = "2"
uuid = { version = "0.8", features = ["v4"] }
