[package]
name = "excel_reader"
version = "0.1.0"
edition = "2021"
publish = false

[dependencies]
calamine = "*"
clap = "*"
polars = { version = "*", default-features = false, features = ["fmt"] }
rayon = "*"
