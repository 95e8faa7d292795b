[package]
name = "chat_broker"
version = "0.1.0"
edition = "2021"
publish = false

[dependencies]
getrandom = "0.2"
mio = { version = "0.8", features = ["net", "os-poll"] }
crossterm = "0.27"
