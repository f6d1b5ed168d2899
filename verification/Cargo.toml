[package]
name = "wk"
version = "0.1.0"
edition = "2021"
publish = false

[dependencies]
camino = "1"
clap = { version = "4", features = ["derive"] }
cliclack = "*"
color-eyre = "0.6"
fs4 = "*"
globset = "0.4"
pathdiff = "0.2"
serde = { version = "1", features = ["derive"] }
serde_json = "1"
sha2 = "0.10"
tempfile = "3"
thiserror = "*"
toml = "*"
walkdir = "2"
