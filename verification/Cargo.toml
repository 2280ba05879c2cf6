[package]
name = "cube_solver"
version = "0.1.0"
edition = "2021"
publish = false

[dependencies]
base64 = "0.13"
bincode = "1"
flate2 = "1"
serde_json = "1"
