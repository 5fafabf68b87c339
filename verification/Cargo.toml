[package]
name = "session_cipher"
version = "0.1.0"
edition = "2021"
publish = false

[dependencies]
hex = "0.4"
log = "0.4"
rand = "0.8"
