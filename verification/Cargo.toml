[package]
name = "samod"
version = "0.1.0"
edition = "2021"
publish = false

[dependencies]
minicbor = { version = "*", features = ["std"] }
sha2 = "0.10"
rand = "0.9"
hex = "0.4"
automerge = "*"
