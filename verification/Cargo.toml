[package]
name = "mesh_monitor"
version = "0.1.0"
edition = "2021"
publish = false

[dependencies]
rustc-serialize = "0.3"
chrono = "0.4"
lazy_static = "1"
paho-mqtt = { version = "*", default-features = false }
