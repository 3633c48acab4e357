[package]
name = "ruuls"
version = "0.1.0"
edition = "2021"
publish = false

[dependencies]
serde = { version = "1", features = ["derive"] }
serde_json = "1"
mustache = "*"
reqwest = { version = "*", default-features = false, features = ["json"] }
futures-util = "0.3"
