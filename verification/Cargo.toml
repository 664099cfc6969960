[package]
name = "blake2b"
version = "0.1.0"
edition = "2021"
publish = false

[dependencies]
fernet = "*"
num_cpus = "*"
tar = "*"
threadpool = "*"
