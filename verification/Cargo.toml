[package]
name = "tapelang"
version = "0.1.0"
edition = "2021"
publish = false

[dependencies]
clap = { version = "=4.5.61", features = ["derive"] }
cranelift = "=0.135.5"
cranelift-module = "=0.135.5"
cranelift-object = "=0.135.5"
