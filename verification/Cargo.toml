[package]
name = "password-kvstore"
version = "0.1.0"
edition = "2021"
publish = false

[dependencies]
argon2-kdf = "*"
bincode = "1.3"
chacha20 = "0.9"
chacha20poly1305 = "0.10"
clap = { version = "4", features = ["derive"] }
flate2 = "1"
hex = "0.4"
iocore = "*"
pbkdf2 = "0.12"
rand = "0.8"
rsa = "0.9"
sanitation = "*"
serde = { version = "1", features = ["derive"] }
sha2 = "0.10"
sha3 = "0.10"
