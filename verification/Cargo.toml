[package]
name = "survival_cubed"
version = "0.1.0"
edition = "2021"
publish = false

[dependencies]
argon2 = "0.5"
getrandom = "0.3"
sha2 = "0.10"
serde = { version = "1", features = ["derive"] }
bincode = "1"
anyhow = "1"
dirs = "6"
log = "0.4"
