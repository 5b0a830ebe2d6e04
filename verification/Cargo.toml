[package]
name = "sheetconv"
version = "0.1.0"
edition = "2021"
publish = false

[dependencies]
calamine = "*"
csv = "*"
xlsxwriter = "*"
structopt = "*"

[dev-dependencies]
zip = "*"
