[package]
name = "gps_trip"
version = "0.1.0"
edition = "2021"
publish = false

[dependencies]
winterfell = "0.11"
winter-crypto = "0.11"
gpx = "0.10"
quick-xml = "0.37"
chrono = "0.4"
time = "0.3"
serde = { version = "1", features = ["derive"] }
