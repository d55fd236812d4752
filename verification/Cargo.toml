[package]
name = "morphir_naming"
version = "0.1.0"
edition = "2021"
publish = false

[dependencies]
lasso = { version = "=0.7.3", features = ["multi-threaded"] }
serde = { version = "=1.0.229", features = ["derive"] }
serde_json = "=1.0.151"
url = { version = "=2.5.8", features = ["serde"] }
