[package]
name = "layercake"
version = "0.1.0"
edition = "2021"
publish = false

[dependencies]
serde = "*"
serde_derive = "*"
serde_yaml = "*"
serde_json = "*"
structopt = "*"
log = "*"
simplelog = "*"
tar = "*"
tempfile = "*"
