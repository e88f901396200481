[package]
name = "actor_networking"
version = "0.1.0"
edition = "2021"
publish = false

[dependencies]
byteorder = "1"
compact = "0.2"
stdweb = "0.4"
tungstenite = { version = "0.19", default-features = false, features = ["handshake"] }
url = "2"
