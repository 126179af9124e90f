[package]
name = "h7cad"
version = "0.1.3"
edition = "2021"
publish = false

[dependencies]
acadrust = "=0.6.8"
roxmltree = "=0.21.2"
serde = { version = "=1.0.229", features = ["derive"] }
image = { version = "=0.25.10", default-features = false, features = ["png"] }

[dev-dependencies]
serde_json = "=1.0.154"
