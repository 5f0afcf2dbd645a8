[package]
name = "expectation"
version = "0.1.0"
edition = "2021"
publish = false

[dependencies]
diff = "*"
serde = "*"
serde_derive = "*"
serde_json = "*"
walkdir = "*"
crossbeam = "*"
colored = "*"
structopt = "*"
