[package]
name = "sibsecsh"
version = "0.1.0"
edition = "2021"
publish = false

[dependencies]
cidr = "=0.3.2"
oath = "=0.1.4"
rust-crypto = "=0.2.36"
rand = "=0.8.8"
home = "=0.5.12"
exec = "=0.3.1"
log = "=0.4.34"
simplelog = "=0.12.2"
serde = { version = "=1.0.229", features = ["derive"] }
toml = "*"
ureq = "=2.12.1"
lettre = { version = "=0.11.23", default-features = false, features = ["smtp-transport", "builder", "rustls-tls"] }
whoami = "*"
