[package]
name = "egt_on_efg"
version = "0.1.0"
edition = "2021"
publish = false

[dependencies]
argh = "*"
chrono = "*"
indicatif = "*"
serde_json = "*"
