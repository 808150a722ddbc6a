[package]
name = "nexus_curator"
version = "0.1.0"
edition = "2021"
publish = false

[dependencies]
semver_rs = "=0.2.0"
serde = { version = "=1.0.229", features = ["derive"] }
reqwest = { version = "=0.13.5", default-features = false, features = ["blocking", "cookies", "form", "json"] }
