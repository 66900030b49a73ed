[package]
name = "pombo_correio"
version = "0.1.0"
edition = "2021"
publish = false

[dependencies]
serde = { version = "1", features = ["derive"] }
serde_json = "1"
uuid = { version = "1", features = ["v4"] }
mime_guess = "2"
hostname = "0.4"
mdns-sd = "*"
reqwest = { version = "0.12", default-features = false, features = ["blocking", "json"] }
tiny_http = "0.12"
thiserror = "2"
