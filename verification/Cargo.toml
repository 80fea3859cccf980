[package]
name = "zkl_sol_demo"
version = "0.1.0"
edition = "2021"
publish = false

[dependencies]
anchor-lang = "0.30"
hex = "0.4"
hmac = "0.12"
sha2 = "0.10"
