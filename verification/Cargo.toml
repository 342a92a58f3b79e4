[package]
name = "meusic"
version = "0.1.0"
edition = "2021"
publish = false

[dependencies]
base64 = "0.22"
serde = { version = "1", features = ["derive"] }
serde_json = "1"
ureq = "2"
tiny_http = "0.12"
lofty = "0.22"
walkdir = "2"
rayon = "1"
chrono = "0.4"
zbus = "5"
