[package]
name = "argus"
version = "0.1.0"
edition = "2021"
publish = false

[dependencies]
encoding_rs = "*"
image = { version = "*", default-features = false, features = ["png"] }
infer = "*"
leptess = "*"
lopdf = "*"
pdf-extract = "*"
rayon = "*"
regex = "*"
tempfile = "*"
walkdir = "*"
zip = { version = "*", default-features = false, features = ["deflate"] }
