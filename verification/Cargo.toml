[package]
name = "baker"
version = "0.1.0"
edition = "2021"
publish = false

[dependencies]
cryptoxide = "*"
hex = "*"
itertools = "*"
reqwest = { version = "*", default-features = false, features = ["blocking", "json"] }
serde = { version = "*", features = ["derive"] }
serde_json = "*"
time = { version = "*", features = ["parsing"] }
