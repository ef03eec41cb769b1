[package]
name = "oryn"
version = "0.1.0"
edition = "2021"
publish = false

[dependencies]
regex = "1"
pulldown-cmark = { version = "*", default-features = false }
syntect = { version = "5", default-features = false, features = ["default-fancy"] }
serde = { version = "1", features = ["derive"] }
serde_json = "1"
dirs = "*"
notify = "*"
merman = "*"
