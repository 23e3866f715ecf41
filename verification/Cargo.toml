[package]
name = "comic_viewer"
version = "0.1.0"
edition = "2021"
publish = false

[dependencies]
rusqlite = "*"
walkdir = "2"
tauri = { version = "2", default-features = false, features = ["wry"] }
