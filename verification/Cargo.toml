[package]
name = "fmonna-site"
version = "0.1.0"
edition = "2021"
publish = false

[dependencies]
dioxus = { version = "0.7", features = ["router", "fullstack"] }
