[package]
name = "chat_relay"
version = "0.1.0"
edition = "2021"
publish = false

[dependencies]
rand = "=0.10.3"
tokio = { version = "=1.53.2", features = ["rt-multi-thread", "macros", "net", "io-util", "io-std", "sync", "signal"] }
russh = "=0.63.3"
anyhow = "=1.0.104"
dotenv = "=0.15.0"
