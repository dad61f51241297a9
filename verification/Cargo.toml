[package]
name = "cuteness"
version = "0.1.0"
edition = "2021"
publish = false

[dependencies]
blake3 = "*"
clap = { version = "*", features = ["derive"] }
emojis = "*"
handlebars = "*"
home = "*"
pulldown-cmark = "*"
serde = { version = "*", features = ["derive"] }
serde_json = "*"
toml = "*"
