[package]
name = "cod4_patcher"
version = "0.1.0"
edition = "2021"
publish = false

[dependencies]
base64 = "0.22"
rsa = "0.9"
serde_json = "1"
tiger = "0.2"
