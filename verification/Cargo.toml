[package]
name = "dialog_storage"
version = "0.1.0"
edition = "2021"
publish = false

[dependencies]
async-trait = "0.1"
dirs = "6"
tokio = { version = "1", features = ["fs"] }
url = "2"
