[package]
name = "embassy_gps"
version = "0.1.0"
edition = "2021"
publish = false

[dependencies]
nmea = "0.7"
chrono = { version = "0.4", default-features = false }
heapless = "0.8"
embassy-time = "0.4"
embassy-futures = "0.1"
embedded-io-async = "0.6"
esp-hal = "*"
