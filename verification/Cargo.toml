[package]
name = "stars"
version = "0.1.0"
edition = "2021"
publish = false

[dependencies]
crust = "*"
serde = { version = "1", features = ["derive"] }
serde_json = "1"
ureq = { version = "2", features = ["json"] }
