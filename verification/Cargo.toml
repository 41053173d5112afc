[package]
name = "abigen_util"
version = "0.1.0"
edition = "2021"
publish = false

[dependencies]
Inflector = "0.11"
proc-macro2 = "1"
syn = "*"
quote = "1"
cargo_metadata = "*"
once_cell = "1"
reqwest = { version = "*", default-features = false, features = ["blocking"] }
