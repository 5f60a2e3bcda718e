[package]
name = "openstranded_plugin_api"
version = "0.2.2"
edition = "2021"
publish = false

[dependencies]
ron = "*"
serde = { version = "1", features = ["derive"] }
thiserror = "*"
