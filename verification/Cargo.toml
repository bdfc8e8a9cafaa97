[package]
name = "jitterentropy_rustrngd"
version = "0.1.0"
edition = "2021"
publish = false

[dependencies]
libc = "=0.2.191"
zeroize = { version = "=1.9.1", features = ["derive"] }
sha3 = { version = "=0.10.9", features = ["zeroize"] }
