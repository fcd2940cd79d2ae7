[package]
name = "emmylua_members"
version = "0.1.0"
edition = "2021"
publish = false

[dependencies]
hashbrown = "*"
internment = { version = "*", features = ["arc"] }
