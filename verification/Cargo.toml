[package]
name = "polyparse"
version = "0.1.0"
edition = "2021"
publish = false

[dependencies]
good_lp = { version = "*", default-features = false, features = ["microlp"] }
