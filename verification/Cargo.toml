[package]
name = "sonic_csv"
version = "0.1.0"
edition = "2021"
publish = false

[dependencies]
memchr = "2"
