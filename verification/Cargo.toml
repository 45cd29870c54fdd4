[package]
name = "prediction_market"
version = "0.1.0"
edition = "2021"
publish = false

[dependencies]
soroban-sdk = "=23.5.3"
sep-41-token = "=1.3.1"
stellar-tokens = "=0.6.0"
stellar-macros = "=0.6.0"
