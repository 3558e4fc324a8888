[package]
name = "kernel_loader"
version = "0.1.0"
edition = "2021"
publish = false

[dependencies]
vm-memory = { version = "0.1.0", features = ["backend-mmap"] }
