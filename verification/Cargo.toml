[package]
name = "delink"
version = "0.1.0"
edition = "2021"
publish = false

[dependencies]
fxhash = "*"
anyhow = "*"
argp = "*"
ds-rom = "*"
log = "*"
path-slash = "*"
pathdiff = "*"
serde = { version = "*", features = ["derive"] }
serde_yml = "*"
