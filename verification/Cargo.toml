[package]
name = "zero_ecs"
version = "0.1.0"
edition = "2021"
publish = false

[dependencies]
serde = { version = "=1.0.229", features = ["derive"] }
serde_json = "=1.0.151"
glam = "=0.34.1"
wasmtime = "=40.0.4"
