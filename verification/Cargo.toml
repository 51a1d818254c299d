[package]
name = "pqfs"
version = "0.1.0"
edition = "2021"
publish = false

[dependencies]
anyhow = "=1.0.104"
argon2 = "=0.6.0"
bincode = "=1.3.3"
chacha20poly1305 = "=0.11.0"
clap = { version = "=4.6.7", features = ["derive", "env"] }
fuser = { version = "=0.15.1", default-features = false }
hkdf = "=0.13.0"
hmac = "=0.13.0"
libc = "=0.2.191"
ml-kem = { version = "=0.3.4", features = ["getrandom"] }
rand = "=0.10.3"
rpassword = "=7.5.4"
sha2 = "=0.11.1"
tracing = "=0.1.44"
tracing-subscriber = { version = "=0.3.23", features = ["env-filter"] }
zeroize = "=1.9.1"
