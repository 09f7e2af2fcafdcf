[package]
name = "concinnity_gfx"
version = "0.1.0"
edition = "2021"
publish = false

[dependencies]
glfw = "*"
serde = { version = "1", features = ["derive"] }
serde_json = "1"
tracing = "0.1"

[dev-dependencies]
ciborium = "0.2"
