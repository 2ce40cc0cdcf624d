[package]
name = "shelves"
version = "0.1.0"
edition = "2021"
publish = false

[dependencies]
anyhow = "1"
rustls = { version = "0.23", default-features = false, features = ["ring", "std", "tls12"] }
unicode-segmentation = "1"
webpki-roots = "0.26"
