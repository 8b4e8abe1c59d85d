[package]
name = "galaxy_cache"
version = "0.1.0"
edition = "2021"
publish = false

[dependencies]
glob = "*"
zip = { version = "*", default-features = false, features = ["deflate"] }
bmp = "*"
minifb = "*"
