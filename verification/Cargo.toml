[package]
name = "vcard_json"
version = "0.1.0"
edition = "2021"
publish = false

[dependencies]
ical = "*"
serde_json = "1"
