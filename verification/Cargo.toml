[package]
name = "shapemaker"
version = "0.1.0"
edition = "2021"
publish = false

[dependencies]
quick-xml = "*"
chrono = "0.4"
rand = "0.9"
resvg = "*"
indicatif = "*"
console = "*"
anyhow = "1"
serde = { version = "1", features = ["derive"] }
slug = "*"
symphonia = "*"
