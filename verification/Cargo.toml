[package]
name = "firmware_formats"
version = "0.1.0"
edition = "2021"
publish = false

[dependencies]
aes = "0.8"
aes-gcm = "0.10"
md5 = "0.7"
sha2 = "0.10"
rsa = "0.9"
