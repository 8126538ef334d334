[package]
name = "domain_expiry"
version = "0.1.0"
edition = "2021"
publish = false

[dependencies]
str2ts = "*"
aok = "*"
whois-rust = "*"
sonic-rs = "*"
serde = { version = "1", features = ["derive"] }
