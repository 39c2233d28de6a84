[package]
name = "multiemu"
version = "0.1.0"
edition = "2021"
publish = false

[dependencies]
rand = "*"
rmpv = { version = "*", features = ["with-serde"] }
serde = { version = "*", features = ["derive"] }
