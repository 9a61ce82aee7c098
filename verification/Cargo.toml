[package]
name = "gatewaynode"
version = "0.1.0"
edition = "2021"
publish = false

[dependencies]
markdown = "=0.3.0"
chrono = { version = "=0.4.45", features = ["serde"] }
serde = { version = "=1.0.229", features = ["derive"] }
rocket = "0.5.2"
rocket_dyn_templates = { version = "0.2", features = ["tera"] }
rocket_cors = "0.6.0"
