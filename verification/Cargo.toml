[package]
name = "gitfacade"
version = "0.1.0"
edition = "2021"
publish = false

[dependencies]
git2 = { version = "*", default-features = false }
toml = "0.5"
