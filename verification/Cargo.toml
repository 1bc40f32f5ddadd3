[package]
name = "cce-mail"
version = "0.1.0"
edition = "2021"
publish = false

[dependencies]
calloop = "=0.13.0"
imap = "=2.4.1"
imap-proto = "=0.10.2"
keyring = "=3.6.3"
lettre = { version = "=0.11.23", default-features = false, features = ["builder", "smtp-transport", "native-tls"] }
mail-parser = "0.11"
native-tls = "=0.2.18"
reqwest = { version = "=0.12.28", default-features = false, features = ["json", "native-tls"] }
rustix = { version = "=0.38.44", features = ["event"] }
serde = { version = "1", features = ["derive"] }
serde_json = { version = "=1.0.154", features = ["preserve_order"] }
tokio = { version = "=1.54.1", features = ["rt-multi-thread", "net", "time"] }
wayland-client = "0.31"
