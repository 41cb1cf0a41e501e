[package]
name = "moonunit"
version = "0.1.0"
edition = "2021"
publish = false

[dependencies]
mlua = { version = "0.8", features = ["lua54", "vendored"] }
structopt = "0.3"
