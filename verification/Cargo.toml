[package]
name = "ugdown"
version = "0.1.0"
edition = "2021"
publish = false

[dependencies]
serde_json = "1"
url = "2"
ureq = "2"
jsonpath_lib = "0.3"
which = "*"
directories = "*"
uuid = { version = "1", features = ["v4"] }
zip = { version = "*", default-features = false }
