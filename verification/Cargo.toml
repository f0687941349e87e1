[package]
name = "orma"
version = "0.1.0"
edition = "2021"
publish = false

[dependencies]
argh = "0.1"
libc = "0.2"
rpassword = "7"
serde = { version = "1", features = ["derive"] }
serde_yaml = "0.9"
thiserror = "2"
