[package]
name = "name_popularity"
version = "0.1.0"
edition = "2021"
publish = false

[dependencies]
idmap = "*"
itoa = "*"
serde = "*"
serde_derive = "*"
serde_json = "*"
sqlite = "*"
