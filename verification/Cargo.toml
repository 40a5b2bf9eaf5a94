[package]
name = "myx"
version = "0.1.0"
edition = "2021"
publish = false

[dependencies]
anyhow = "1"
base64 = "=0.22.1"
color-thief = "=0.2.2"
flume = { version = "0.11", default-features = false, features = ["async"] }
image = { version = "0.25", default-features = false, features = ["jpeg"] }
librespot-connect = { version = "=0.8.0", default-features = false, features = ["rustls-tls-webpki-roots"] }
librespot-core = { version = "=0.8.0", default-features = false, features = ["rustls-tls-webpki-roots"] }
librespot-playback = { version = "=0.8.0", default-features = false, features = ["rustls-tls-webpki-roots"] }
open = "5"
rand = "=0.9.5"
ratatui = { version = "0.28", default-features = false }
ratatui-image = { version = "=2.0.1", default-features = false, features = ["rustix"] }
reqwest = { version = "0.12", default-features = false, features = ["blocking", "json"] }
rustls = { version = "0.23", default-features = false, features = ["ring"] }
serde = { version = "1", features = ["derive"] }
serde_json = "=1.0.154"
sha2 = "=0.10.9"
tokio = { version = "1", features = ["rt", "time", "macros", "sync"] }
toml = "=0.8.23"
# Held back for librespot-core, whose build script needs the 9.0 line.
vergen = { version = "=9.0.6", default-features = false }
