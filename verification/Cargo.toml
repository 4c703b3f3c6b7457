[package]
name = "layerizer"
version = "0.1.0"
edition = "2021"
publish = false

[dependencies]
anyhow = "*"
fxhash = "*"
image = "*"
psd = "*"
rayon = "*"
serde = { version = "*", features = ["derive"] }
toml = "*"
