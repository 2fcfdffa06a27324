[package]
name = "arctern"
version = "0.1.0"
edition = "2021"
publish = false

[dependencies]
regex = "=1.13.1"
humantime = "=2.4.0"
time = { version = "=0.3.55", features = ["formatting"] }
zfskit = "=0.3.0"
serde = { version = "=1.0.229", features = ["derive"] }
serde_json = "=1.0.154"
toml = "=1.1.8"
humantime-serde = "=1.1.1"
thiserror = "=2.0.21"
base64 = "0.22"
sha2 = "0.10"
subtle = "2"
getrandom = "0.3"
