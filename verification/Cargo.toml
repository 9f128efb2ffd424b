[package]
name = "geoarrow"
version = "0.1.0"
edition = "2021"
publish = false

[dependencies]
arrow-array = "*"
arrow-buffer = "*"
arrow-schema = "*"
byteorder = "*"
geo = "*"
geo-traits = "*"
serde = { version = "*", features = ["derive"] }
serde_json = "*"
