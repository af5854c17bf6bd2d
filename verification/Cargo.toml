[package]
name = "mailstrom"
version = "0.1.0"
edition = "2021"
publish = false

[dependencies]
email-format = "0.8"
lettre = "0.9"
native-tls = "0.2"
trust-dns-resolver = "0.20"
uuid = { version = "0.8", features = ["v4"] }
