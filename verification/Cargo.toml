[package]
name = "xapi_cli"
version = "0.1.0"
edition = "2021"
publish = false

[dependencies]
base64 = "0.13"
clap = "*"
reqwest = { version = "0.11", features = ["blocking"] }
serde_json = "*"
xmlrpc = "*"
