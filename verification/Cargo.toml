[package]
name = "stark_verifier"
version = "0.1.0"
edition = "2021"

[dependencies]
anyhow = "*"
plonky2 = "*"
