[package]
name = "hyprsheep"
version = "0.1.0"
edition = "2021"
publish = false

[dependencies]
fastrand = "*"
png = "*"
roxmltree = "*"
serde_json = "*"
calloop = "*"
calloop-wayland-source = "*"
smithay-client-toolkit = { version = "*", default-features = false, features = ["calloop"] }
wayland-client = "*"
