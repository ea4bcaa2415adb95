[package]
name = "oref_red_alert"
version = "0.1.0"
edition = "2021"
publish = false

[dependencies]
reqwest = { version = "*", default-features = false, features = ["blocking"] }
chrono = "*"
thiserror = "*"

[dev-dependencies]
serde_json = "*"
