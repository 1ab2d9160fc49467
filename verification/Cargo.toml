[package]
name = "gc_controller"
version = "0.1.0"
edition = "2021"
publish = false

[dependencies]
anyhow = "=1.0.104"
btleplug = "=0.11.8"
clap = { version = "=4.6.7", features = ["derive"] }
# Only so that a Linux build of btleplug finds libdbus.
dbus = { version = "=0.9.12", features = ["vendored"] }
dirs = "=6.0.0"
futures = "=0.3.34"
hidapi = { version = "=2.6.7", default-features = false, features = ["linux-native-basic-udev"] }
libc = "=0.2.191"
rusb = { version = "=0.9.4", features = ["vendored"] }
tokio = { version = "=1.54.1", features = ["rt", "time", "macros"] }
uuid = "=1.29.0"
