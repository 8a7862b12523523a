[package]
name = "nebulae"
version = "0.1.0"
edition = "2021"
publish = false

[dependencies]
rand = "0.8"
clap = { version = "*", features = ["derive"] }
console = "*"
dialoguer = "*"
indicatif = "*"
png = "*"
rayon = "*"
serde = { version = "*", features = ["derive"] }
toml = "*"
