[package]
name = "bap_core"
version = "0.1.0"
edition = "2021"
publish = false

[dependencies]
serde_json = "1"
quick-xml = "*"
flate2 = "1"
tar = "0.4"
ruzstd = "*"
serde = { version = "1", features = ["derive"] }
directories = "*"
reqwest = { version = "*", default-features = false, features = ["blocking"] }
log = "0.4"
anyhow = "1"
