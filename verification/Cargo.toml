[package]
name = "zkp"
version = "0.1.0"
edition = "2021"
publish = false

[dependencies]
bls48581 = "*"
blst = "*"
