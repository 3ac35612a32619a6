[package]
name = "gwstuff"
version = "0.1.0"
edition = "2021"
publish = false

[dependencies]
whoami = "1"
rusttype = "0.9"
font-loader = "0.11"
smithay-client-toolkit = "0.15"
toml = "0.5"
serde = "1"
serde_derive = "1"
