[package]
name = "clpack"
version = "0.1.0"
edition = "2021"
publish = false

[dependencies]
anyhow = "1"
chrono = "0.4"
clap = "4"
colored = "2"
dotenv = "0.15"
faccess = "0.2"
indexmap = { version = "2", features = ["serde"] }
inquire = { version = "0.7", features = ["editor"] }
log = "0.4"
regex = "1"
reqwest = { version = "0.12", features = ["blocking"] }
serde = { version = "1", features = ["derive"] }
serde_json = "1"
smart-default = "0.7"
toml = "0.8"
