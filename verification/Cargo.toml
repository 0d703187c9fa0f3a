[package]
name = "dimetric"
version = "0.1.0"
edition = "2021"
publish = false

[dependencies]
fixed = "1"
blake3 = "1"
toml_edit = "0.22"
serde = { version = "1", features = ["derive"] }
serde_json = "1"
png = "0.17"
fontdue = "0.9"
asefile = "0.3"
clap = { version = "4", features = ["derive"] }
slotmap = "1"
