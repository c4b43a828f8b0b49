[package]
name = "zmanager_core"
version = "0.1.0"
edition = "2021"
publish = false

[dependencies]
sha2 = "*"
crc32fast = "*"
adler2 = "*"
lzo = "*"
base64 = "*"
rand = "*"
rand_core = "*"
getrandom = "*"
serde = { version = "*", features = ["derive"] }
serde_json = "*"
msi = "*"
cab = "*"
p256 = "*"
ecdsa = "*"
pkcs8 = "*"
x509-cert = "*"
