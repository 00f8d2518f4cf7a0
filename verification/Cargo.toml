[package]
name = "memchr_etna"
version = "0.1.0"
edition = "2021"
publish = false

[dependencies]
crabcheck = "=0.2.0"
hegeltest = "=0.37.0"
proptest = "=1.12.0"
rand = "=0.9.5"
