[package]
name = "jira_cli"
version = "1.0.0"
edition = "2021"
publish = false

[dependencies]
base64 = "*"
attohttpc = { version = "*", default-features = false }
clap = { version = "*", features = ["env"] }
comfy-table = "*"
dialoguer = "*"
rayon = "*"
zeroize = { version = "*", features = ["zeroize_derive"] }
