[package]
name = "memgram"
version = "0.1.0"
edition = "2021"
publish = false

[dependencies]
hex = "0.4"
hexplay = "0.2"
iced-x86 = { version = "1", default-features = false, features = ["std", "decoder", "nasm"] }
prettytable-rs = { version = "0.10", default-features = false }
serde = { version = "1", features = ["derive"] }
toml = "0.5"
widestring = "0.4"
