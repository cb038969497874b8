[package]
name = "speedometer"
version = "0.1.0"
edition = "2021"
publish = false

[dependencies]
async-channel = "=2.5.0"
ashpd = { version = "=0.13.13", default-features = false, features = ["location", "tokio"] }
futures-util = "=0.3.34"
gettext-rs = "=0.7.7"
gtk4 = "=0.11.5"
libadwaita = { version = "=0.9.2", features = ["v1_5"] }
tokio = { version = "=1.54.1", features = ["rt", "time"] }
zbus = { version = "=5.19.0", default-features = false, features = ["tokio"] }
