[package]
name = "instance_manager"
version = "0.1.0"
edition = "2021"
publish = false

[dependencies]
futures = "=0.3.34"
lazy_static = "=1.5.1"
prometheus = { version = "=0.14.0", default-features = false }
slog = "=2.8.2"

[dev-dependencies]
ethereum-types = { version = "=0.16.0", default-features = false }
