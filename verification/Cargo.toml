[package]
name = "lisa"
version = "0.1.0"
edition = "2021"
publish = false

[dependencies]
anyhow = "=1.0.104"
block2 = "=0.6.2"
half = "=2.7.1"
hf-chat-template = "=1.0.0"
objc2 = "=0.6.5"
objc2-foundation = "=0.3.2"
objc2-metal = "=0.3.2"
serde_json = { version = "=1.0.154", features = ["preserve_order"] }
