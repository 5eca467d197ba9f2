[package]
name = "lifehash_lib"
version = "0.1.0"
edition = "2021"
publish = false

[dependencies]
sha2 = "0.10"
hex = "0.4"
png = "0.17"
clap = { version = "4", features = ["derive"] }
