[package]
name = "paperback"
version = "0.1.0"
edition = "2021"
publish = false

[dependencies]
pulldown-cmark = "*"
encoding_rs = "*"
percent-encoding = "*"
zip = "*"
semver = "*"
serde = { version = "*", features = ["derive"] }
roxmltree = "*"
