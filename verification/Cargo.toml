[package]
name = "camux"
version = "0.1.0"
edition = "2021"
publish = false

[dependencies]
serde = { version = "1", features = ["derive"] }
serde_json = "1"
unicode-width = "*"
v4l = { version = "*", default-features = false, features = ["v4l2"] }
objc2 = "*"
objc2-foundation = "*"
objc2-av-foundation = "*"
objc2-core-media = "*"
