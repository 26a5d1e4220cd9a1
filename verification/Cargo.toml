[package]
name = "yuaibro"
version = "0.1.0"
edition = "2021"
publish = false

[dependencies]
html5ever = "0.27"
markup5ever_rcdom = "0.3"
serde_json = "1.0"
