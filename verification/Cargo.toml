[package]
name = "hdl_cat"
version = "0.1.0"
edition = "2021"
publish = false

[dependencies]
comp-cat-rs = "*"
syn = { version = "2", features = ["full"] }
