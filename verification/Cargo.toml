[package]
name = "linc"
version = "0.1.0"
edition = "2021"
publish = false

[dependencies]
object = "0.36"
serde = { version = "1", features = ["derive"] }
serde_json = "1"
