[package]
name = "doom_server"
version = "0.1.0"
edition = "2021"
publish = false

[dependencies]
serde = { version = "1", features = ["derive"] }
rand = "0.9"
ipc-channel = "*"
async-trait = "0.1"
valence = "*"
doomgeneric = "*"
