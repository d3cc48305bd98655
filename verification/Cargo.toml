[package]
name = "eveboros"
version = "0.1.0"
edition = "2021"
publish = false

[dependencies]
libc = "=0.2.191"
linked-hash-map = "=0.5.6"
mio = "=0.6.23"
nix = { version = "=0.8.1", features = ["signalfd"] }
threadpool = "=1.8.1"
