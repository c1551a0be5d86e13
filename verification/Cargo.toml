[package]
name = "scribobulate"
version = "0.1.0"
edition = "2021"
publish = false

[dependencies]
glib = "0.20"
log = "0.4"
serde = { version = "1", features = ["derive"] }

[dev-dependencies]
toml = "0.8"
