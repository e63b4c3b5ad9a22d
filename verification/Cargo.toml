[package]
name = "komodo_terminal"
version = "0.1.0"
edition = "2021"
publish = false

[dependencies]
url = "2"
anyhow = "1"
futures-util = "0.3"
tokio = { version = "1", features = ["macros", "rt"] }
reqwest = { version = "0.12", default-features = false }
