[package]
name = "twopc"
version = "0.1.0"
edition = "2021"
publish = false

[dependencies]
ahash = "=0.8.12"
stateright = "=0.30.2"
