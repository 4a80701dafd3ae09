[package]
name = "rusty_hue_controller"
version = "0.1.0"
edition = "2021"
publish = false

[dependencies]
mac_address = "*"
hueclient = "*"
mdns = "*"
futures-util = "*"
rocket = "*"

[dev-dependencies]
serde_json = "*"
