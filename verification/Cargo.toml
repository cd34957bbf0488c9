[package]
name = "multiplex"
version = "0.1.0"
edition = "2021"
publish = false

[dependencies]
sha2 = "=0.10.9"
hkdf = "=0.12.4"
keyring = { version = "=3.6.3", features = ["apple-native", "windows-native", "linux-native"] }
zeroize = "=1.9.1"
base64 = "=0.22.1"
serde = { version = "=1.0.229", features = ["derive"] }
serde_json = "=1.0.154"
libc = "=0.2.191"
dirs = "=7.0.0"
crossterm = "=0.29.0"
