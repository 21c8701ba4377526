[package]
name = "journal_core"
version = "0.1.0"
edition = "2021"
publish = false

[dependencies]
sha2 = "*"
mime = "*"
url = "*"
uuid = { version = "*", features = ["v4"] }
reqwest = { version = "*", default-features = false }
tokio = { version = "*", features = ["rt-multi-thread", "macros"] }
