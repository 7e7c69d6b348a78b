[package]
name = "dub_library"
version = "0.1.0"
edition = "2021"
publish = false

[dependencies]
base64 = "0.22"
uuid = { version = "1", features = ["v4"] }
quick-xml = "0.36"
id3 = "1"
dirs = "5"
