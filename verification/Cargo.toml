[package]
name = "wled_doppler"
version = "0.1.0"
edition = "2021"
publish = false

[dependencies]
anyhow = "=1.0.104"
chrono = { version = "=0.4.45", features = ["serde"] }
clap = { version = "=4.6.7", features = ["derive"] }
dirs = "=7.0.0"
inotify = "=0.11.5"
log = "=0.4.34"
mdns-sd = "=0.21.5"
ron = "=0.12.2"
serde = { version = "=1.0.229", features = ["derive"] }
serde_json = "=1.0.151"
sunrise = "=3.0.0"
ureq = { version = "=2.12.1", features = ["json"] }
url = "=2.5.8"
wled-json-api-library = "=0.1.7"
