[package]
name = "cat_prep"
version = "0.1.0"
edition = "2021"
publish = false

[dependencies]
clap = "=2.34.0"
failure = "=0.1.8"
handlebars = "=3.0.0"
mdbook = { version = "=0.3.7", default-features = false }
serde = { version = "=1.0.229", features = ["derive"] }
serde_json = "=1.0.154"
shells = "=0.2.0"
tinytemplate = "=1.2.1"
toml = "=0.5.11"
walkdir = "=2.5.0"
