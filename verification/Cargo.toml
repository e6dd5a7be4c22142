[package]
name = "sp0ky"
version = "0.1.0"
edition = "2021"
publish = false

[dependencies]
pnet = "*"
actix-web = "*"
clap = { version = "*", features = ["derive", "env"] }
serde = { version = "*", features = ["derive"] }
serde_json = "*"
