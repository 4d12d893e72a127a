[package]
name = "xnft"
version = "0.1.0"
edition = "2021"
publish = false

[dependencies]
staging-xcm = "*"
sp-io = "*"
sp-runtime = "*"
frame-support = "*"
parity-scale-codec = { version = "3.7", features = ["derive"] }
scale-info = { version = "2.11", features = ["derive"] }
