[package]
name = "solverforge_mail"
version = "0.1.0"
edition = "2021"
publish = false

[dependencies]
mail-parser = "0.9"
base64 = "0.22"
anyhow = "1"
serde = { version = "1", features = ["derive"] }
serde_json = "1"
dirs = "5"
imap = "2.4"
imap-proto = "0.10"
imap-codec = "*"
imap-types = "*"
lettre = "0.11"
native-tls = "0.2"
