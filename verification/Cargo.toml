[package]
name = "vandelay"
version = "0.1.0"
edition = "2021"
publish = false

[dependencies]
base64 = "=0.22.1"
blake3 = { version = "=1.8.7", default-features = false, features = ["pure", "std"] }
chrono = { version = "=0.4.45", default-features = false, features = ["std", "alloc", "clock"] }
chrono-tz = "=0.10.4"
psl = "=2.1.246"
url = "=2.5.8"
time = { version = "=0.3.55", features = ["parsing", "formatting", "macros", "std"] }
serde = { version = "=1.0.229", features = ["derive"] }
serde_json = { version = "=1.0.154", features = ["preserve_order"] }
indexmap = { version = "=2.14.2", features = ["serde"] }
rusqlite = { version = "=0.41.1", features = ["bundled"] }
ureq = "=3.5.1"
rustls = { version = "=0.23.46", default-features = false, features = ["std", "ring", "tls12", "logging"] }
clap = { version = "=4.6.7", features = ["derive"] }
regex = "=1.13.1"
mail-parser = "=0.11.9"
crossbeam-channel = "=0.5.17"
thiserror = "=2.0.21"
