[package]
name = "price_oracle"
version = "0.1.0"
edition = "2021"
publish = false

[dependencies]
soroban-sdk = "=20.5.0"
