[package]
name = "sctk_event_loop"
version = "0.1.0"
edition = "2021"
publish = false

[dependencies]
calloop = "=0.10.6"
smithay-client-toolkit = { version = "=0.17.0", default-features = false, features = ["calloop"] }
wayland-backend = "=0.1.2"
wayland-client = "=0.30.2"
