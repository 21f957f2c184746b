[package]
name = "aterm"
version = "0.1.0"
edition = "2021"
publish = false

[dependencies]
dirs = "*"
plist = "*"
serde_json = "*"
