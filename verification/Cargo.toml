[package]
name = "vortex_dict"
version = "0.1.0"
edition = "2021"
publish = false

[dependencies]
futures = "0.3"
vortex-error = "*"
vortex-mask = "*"
vortex-session = "*"
vortex-utils = { version = "*", features = ["dashmap"] }
