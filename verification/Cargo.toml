[package]
name = "ssr-native-rs"
version = "0.1.0"
edition = "2021"
publish = false

[dependencies]
base64 = "0.22"
md-5 = "0.10"
sha1 = "0.10"
sha2 = "0.10"
hmac = "0.12"
hkdf = "0.12"
aes = "0.8"
camellia = "0.1"
blowfish = "0.9"
cast5 = "0.11"
des = "0.8"
ctr = "0.9"
rc4 = "0.1"
salsa20 = "0.10"
chacha20 = "0.9"
aes-gcm = "0.10"
chacha20poly1305 = "0.10"
rand = "0.8"
percent-encoding = "2"
serde = { version = "1", features = ["derive"] }
serde_json = "1"
tokio = { version = "1", features = ["full"] }
clap = { version = "4", features = ["derive"] }
rustls = { version = "0.23", default-features = false, features = ["ring", "std", "tls12"] }
tokio-rustls = { version = "0.26", default-features = false, features = ["ring", "tls12"] }
webpki-roots = "0.26"
rlimit = "0.10"
bloomfilter = "1"
env_logger = "0.11"
log = "0.4"
