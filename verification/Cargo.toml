[package]
name = "dom_attrs"
version = "0.1.0"
edition = "2021"
publish = false

[dependencies]
darling = "0.14"
proc-macro2 = "1"
quote = "1"
syn = { version = "1", features = ["full", "extra-traits"] }
synstructure = "0.12"
