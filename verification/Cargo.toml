[package]
name = "diskspace"
version = "0.9.0"
edition = "2021"
publish = false

[dependencies]
anyhow = "1"
chrono = { version = "0.4", features = ["serde"] }
console = "0.15"
crossterm = "0.28"
glob = "0.3"
indicatif = "0.17"
jwalk = "0.8"
ratatui = "0.29"
serde = { version = "1", features = ["derive"] }
serde_json = "1"
sha2 = "0.10"
shell-words = "1"
toml = "0.8"
toml_edit = "0.22"
