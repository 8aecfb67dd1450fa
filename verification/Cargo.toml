[package]
name = "gemini_client"
version = "0.1.0"
edition = "2021"
publish = false

[dependencies]
reqwest = { version = "=0.12.28", default-features = false, features = ["rustls-tls", "stream"] }
tokio = { version = "=1.53.2", features = ["rt-multi-thread", "macros", "process"] }
futures-util = "=0.3.34"
dotenv = "=0.15.0"
