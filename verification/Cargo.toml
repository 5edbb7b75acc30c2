[package]
name = "rsdake"
version = "0.1.0"
edition = "2021"
publish = false

[dependencies]
aes = "0.8"
cmac = "0.7"
curve25519-dalek = { version = "4", features = ["digest", "rand_core"] }
hashcom-rs = "*"
nazgul = "*"
rand = "0.8"
rand_chacha = "0.3"
rand_core = { version = "0.6", features = ["getrandom"] }
rsa = { version = "0.9", features = ["sha2"] }
sha2 = "0.10"
