[package]
name = "wsz"
version = "0.1.0"
edition = "2021"
publish = false

[dependencies]
image = { version = "*", default-features = false, features = ["bmp", "png"] }
zip = { version = "*", default-features = false, features = ["deflate"] }
