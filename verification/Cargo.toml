[package]
name = "cosense_ocr"
version = "0.1.0"
edition = "2021"
publish = false

[dependencies]
futures = "*"
indicatif = "*"
tokio = { version = "*", features = ["sync", "macros", "rt-multi-thread"] }
