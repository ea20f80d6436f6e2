[package]
name = "mend"
version = "0.1.0"
edition = "2021"
publish = false

[dependencies]
anyhow = "*"
clap = { version = "*", features = ["derive"] }
console = "*"
indicatif = "*"
serde = { version = "*", features = ["derive"] }
shellexpand = "*"
toml = "*"
which = "*"
