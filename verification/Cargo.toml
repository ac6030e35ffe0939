[package]
name = "snarky_bn382"
version = "0.1.0"
edition = "2021"
publish = false

[dependencies]
libc = "0.2"
num-bigint = "0.2"
rand = "0.7"
rand_core = { version = "0.5", features = ["getrandom"] }
sprs = "0.7"
