[package]
name = "csidh_core"
version = "0.1.0"
edition = "2021"
publish = false

[dependencies]
num-bigint = "0.2"
num-primes = "*"
rand = "0.8"
