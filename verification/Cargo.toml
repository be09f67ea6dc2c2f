[package]
name = "mm_store"
version = "0.1.0"
edition = "2021"
publish = false

[dependencies]
anyhow = "=1.0.104"
base64 = "=0.22.1"
camino = "=1.2.6"
cap-std = "=3.4.6"
cap-tempfile = "=3.4.6"
clap = { version = "=4.6.7", features = ["derive"] }
env_logger = "=0.11.11"
hex = "=0.4.3"
log = "=0.4.34"
reqwest = { version = "0.12", default-features = false, features = ["blocking", "rustls-tls"] }
serde = { version = "=1.0.229", features = ["derive"] }
serde_ini = "=0.2.0"
sha2 = "=0.10.9"
tempfile = "=3.27.0"
thiserror = "=1.0.69"
toml = "=0.8.23"
url = "=2.5.8"
zip = { version = "=0.6.6", default-features = false, features = ["deflate", "time"] }
zvariant = { version = "=4.2.0", default-features = false, features = ["gvariant"] }
