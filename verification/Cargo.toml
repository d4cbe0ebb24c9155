[package]
name = "homie_controller"
version = "0.1.0"
edition = "2021"
publish = false

[dependencies]
dbus = { version = "=0.9.12", features = ["futures", "vendored"] }
log = "=0.4.34"
thiserror = "=1.0.69"
